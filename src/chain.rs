//! Ordering an unordered set of certificates into a chain, leaf first.
//!
//! The chain is rebuilt from the top down: the self-signed certificates (or,
//! when there is none, the certificate whose issuer is not among the set)
//! seed the list, and each step appends the certificate issued by the subject
//! of the last one. The list is then reversed, so that the leaf comes first
//! and the root, when there is one, comes last.
use vstd::prelude::*;

verus! {

/// A certificate as the chain normalizer reads it: the text form of its
/// subject and issuer names, and its DER encoding.
pub struct CertificateInfo {
    pub subject: String,
    pub issuer: String,
    pub der: Vec<u8>,
}

/// What the normalizer reads of a certificate.
pub struct CertificateView {
    pub subject: Seq<char>,
    pub issuer: Seq<char>,
    pub der: Seq<u8>,
}

impl View for CertificateInfo {
    type V = CertificateView;

    open spec fn view(&self) -> CertificateView {
        CertificateView { subject: self.subject@, issuer: self.issuer@, der: self.der@ }
    }
}

/// The views of `certs`, one for one.
pub open spec fn views(certs: Seq<CertificateInfo>) -> Seq<CertificateView> {
    Seq::new(certs.len(), |i: int| certs[i]@)
}

/// Why a set of certificates could not be turned into a chain.
#[derive(Clone, Copy, Debug, PartialEq, Eq, Structural)]
pub enum ChainError {
    /// The set holds no certificate.
    Missing,
    /// A link of the chain is missing, or the set has no top.
    InvalidCertificate,
}

/// A certificate whose subject is its own issuer.
pub open spec fn self_signed(c: CertificateView) -> bool {
    c.subject == c.issuer
}

/// `certs[i]` is a certificate issued by `name` that is not self-signed.
pub open spec fn issued_by_at(certs: Seq<CertificateView>, name: Seq<char>, i: int) -> bool {
    &&& 0 <= i < certs.len()
    &&& !self_signed(certs[i])
    &&& certs[i].issuer == name
}

/// `i` is the last position of a certificate issued by `name`.
pub open spec fn last_issued_by_at(certs: Seq<CertificateView>, name: Seq<char>, i: int) -> bool {
    &&& issued_by_at(certs, name, i)
    &&& forall|j: int| i < j < certs.len() ==> !#[trigger] issued_by_at(certs, name, j)
}

/// The certificate that `name` issued. Where several claim the same issuer,
/// the last one in the set wins.
pub open spec fn issued_by(certs: Seq<CertificateView>, name: Seq<char>) -> Option<usize> {
    if exists|i: int| last_issued_by_at(certs, name, i) {
        Some((choose|i: int| last_issued_by_at(certs, name, i)) as usize)
    } else {
        None
    }
}

/// No certificate of the set has `name` as its subject.
pub open spec fn subject_absent(certs: Seq<CertificateView>, name: Seq<char>) -> bool {
    forall|j: int| 0 <= j < certs.len() ==> #[trigger] certs[j].subject != name
}

/// `certs[i]` is not self-signed and its issuer is not among the set.
pub open spec fn is_top(certs: Seq<CertificateView>, i: int) -> bool {
    &&& 0 <= i < certs.len()
    &&& !self_signed(certs[i])
    &&& subject_absent(certs, certs[i].issuer)
}

pub open spec fn last_top_at(certs: Seq<CertificateView>, i: int) -> bool {
    &&& is_top(certs, i)
    &&& forall|j: int| i < j < certs.len() ==> !#[trigger] is_top(certs, j)
}

/// The top of a chain that has no self-signed root: the last certificate
/// whose issuer is not among the set.
pub open spec fn top(certs: Seq<CertificateView>) -> Option<usize> {
    if exists|i: int| last_top_at(certs, i) {
        Some((choose|i: int| last_top_at(certs, i)) as usize)
    } else {
        None
    }
}

/// Positions of the self-signed certificates among the first `k`, in order.
pub open spec fn self_signed_upto(certs: Seq<CertificateView>, k: int) -> Seq<usize>
    decreases k,
{
    if k <= 0 {
        seq![]
    } else {
        let s = self_signed_upto(certs, k - 1);
        if self_signed(certs[k - 1]) {
            s.push((k - 1) as usize)
        } else {
            s
        }
    }
}

/// Where the chain starts from: every self-signed certificate, or else the top.
pub open spec fn seed(certs: Seq<CertificateView>) -> Seq<usize> {
    let roots = self_signed_upto(certs, certs.len() as int);
    if roots.len() > 0 {
        roots
    } else {
        match top(certs) {
            Some(t) => seq![t],
            None => seq![],
        }
    }
}

/// The list after `steps` extensions of the seed, root side first; `None`
/// where a link is missing.
pub open spec fn walk(certs: Seq<CertificateView>, steps: nat) -> Option<Seq<usize>>
    decreases steps,
{
    if steps == 0 {
        Some(seed(certs))
    } else {
        match walk(certs, (steps - 1) as nat) {
            None => None,
            Some(l) => if l.len() == 0 {
                None
            } else {
                match issued_by(certs, certs[l.last() as int].subject) {
                    Some(c) => Some(l.push(c)),
                    None => None,
                }
            },
        }
    }
}

/// The positions of the certificates of the chain, leaf first.
pub open spec fn chain_order(certs: Seq<CertificateView>) -> Result<Seq<usize>, ChainError> {
    if certs.len() == 0 {
        Err(ChainError::Missing)
    } else if certs.len() == 1 {
        Ok(seq![0usize])
    } else {
        match walk(certs, (certs.len() - 1) as nat) {
            Some(l) => Ok(l.reverse()),
            None => Err(ChainError::InvalidCertificate),
        }
    }
}

/// `ders` holds the DER encodings of the certificates at the positions `order`.
pub open spec fn encodings_at(ders: Seq<Vec<u8>>, certs: Seq<CertificateView>, order: Seq<usize>) -> bool {
    &&& ders.len() == order.len()
    &&& forall|i: int| 0 <= i < ders.len() ==> #[trigger] ders[i]@ == certs[order[i] as int].der
}

/// `r` is what the normalizer gives for `certs`: the encodings of their
/// chain, leaf first, or the reason there is none.
pub open spec fn sort_outcome(certs: Seq<CertificateView>, r: Result<Vec<Vec<u8>>, ChainError>) -> bool {
    match chain_order(certs) {
        Ok(order) => r matches Ok(v) && encodings_at(v@, certs, order),
        Err(e) => r == Err::<Vec<Vec<u8>>, ChainError>(e),
    }
}

proof fn lemma_walk_stays_none(certs: Seq<CertificateView>, s: nat, t: nat)
    requires
        s <= t,
        walk(certs, s) is None,
    ensures
        walk(certs, t) is None,
    decreases t - s,
{
    if s < t {
        lemma_walk_stays_none(certs, s, (t - 1) as nat);
    }
}

fn position_issued_by(certs: &Vec<CertificateInfo>, name: &String) -> (r: Option<usize>)
    ensures
        r == issued_by(views(certs@), name@),
{
    let mut i: usize = certs.len();
    while i > 0
        invariant
            i <= certs.len(),
            forall|j: int| i <= j < certs.len() ==> !#[trigger] issued_by_at(views(certs@), name@, j),
        decreases i,
    {
        i = i - 1;
        let c = &certs[i];
        let signed_by_itself = c.subject == c.issuer;
        if !signed_by_itself && c.issuer == *name {
            proof {
                assert(last_issued_by_at(views(certs@), name@, i as int));
                let k = choose|k: int| last_issued_by_at(views(certs@), name@, k);
                if k < i {
                    assert(issued_by_at(views(certs@), name@, i as int));
                } else if k > i {
                    assert(issued_by_at(views(certs@), name@, k));
                }
            }
            return Some(i);
        }
        assert(!issued_by_at(views(certs@), name@, i as int));
    }
    None
}

fn subject_present(certs: &Vec<CertificateInfo>, name: &String) -> (r: bool)
    ensures
        r == !subject_absent(views(certs@), name@),
{
    let mut j: usize = 0;
    while j < certs.len()
        invariant
            j <= certs.len(),
            forall|k: int| 0 <= k < j ==> #[trigger] views(certs@)[k].subject != name@,
        decreases certs.len() - j,
    {
        if certs[j].subject == *name {
            assert(views(certs@)[j as int].subject == name@);
            return true;
        }
        j = j + 1;
    }
    false
}

fn position_of_top(certs: &Vec<CertificateInfo>) -> (r: Option<usize>)
    ensures
        r == top(views(certs@)),
{
    let mut i: usize = certs.len();
    while i > 0
        invariant
            i <= certs.len(),
            forall|j: int| i <= j < certs.len() ==> !#[trigger] is_top(views(certs@), j),
        decreases i,
    {
        i = i - 1;
        let c = &certs[i];
        let signed_by_itself = c.subject == c.issuer;
        if !signed_by_itself && !subject_present(certs, &c.issuer) {
            proof {
                assert(last_top_at(views(certs@), i as int));
                let k = choose|k: int| last_top_at(views(certs@), k);
                if k < i {
                    assert(is_top(views(certs@), i as int));
                } else if k > i {
                    assert(is_top(views(certs@), k));
                }
            }
            return Some(i);
        }
        assert(!is_top(views(certs@), i as int));
    }
    None
}

/// The positions of the self-signed certificates, or of the top where
/// there is none.
fn seed_positions(certs: &Vec<CertificateInfo>) -> (r: Vec<usize>)
    ensures
        r@ == seed(views(certs@)),
        forall|i: int| 0 <= i < r.len() ==> #[trigger] r@[i] < certs.len(),
{
    let mut list: Vec<usize> = Vec::new();
    let mut k: usize = 0;
    while k < certs.len()
        invariant
            k <= certs.len(),
            list@ == self_signed_upto(views(certs@), k as int),
            forall|i: int| 0 <= i < list.len() ==> #[trigger] list@[i] < k,
        decreases certs.len() - k,
    {
        if certs[k].subject == certs[k].issuer {
            list.push(k);
        }
        k = k + 1;
    }
    if list.len() == 0 {
        if let Some(t) = position_of_top(certs) {
            proof {
                let k = choose|k: int| last_top_at(views(certs@), k);
                assert(last_top_at(views(certs@), k));
            }
            list.push(t);
        }
    }
    list
}

/// The order of the chain, as positions in `certs`, root side first.
fn chain_positions(certs: &Vec<CertificateInfo>) -> (r: Option<Vec<usize>>)
    requires
        certs.len() >= 2,
    ensures
        match walk(views(certs@), (certs.len() - 1) as nat) {
            Some(l) => r matches Some(v) && v@ == l,
            None => r is None,
        },
        r matches Some(v) ==> forall|i: int| 0 <= i < v.len() ==> #[trigger] v@[i] < certs.len(),
{
    let n = certs.len();
    let mut list = seed_positions(certs);
    let mut step: usize = 0;
    while step < n - 1
        invariant
            n == certs.len(),
            n >= 2,
            step <= n - 1,
            walk(views(certs@), step as nat) == Some(list@),
            forall|i: int| 0 <= i < list.len() ==> #[trigger] list@[i] < n,
        decreases n - 1 - step,
    {
        if list.len() == 0 {
            proof {
                lemma_walk_stays_none(views(certs@), (step + 1) as nat, (n - 1) as nat);
            }
            return None;
        }
        let last = list[list.len() - 1];
        match position_issued_by(certs, &certs[last].subject) {
            Some(c) => {
                proof {
                    let k = choose|k: int| last_issued_by_at(views(certs@), views(certs@)[last as int].subject, k);
                    assert(last_issued_by_at(views(certs@), views(certs@)[last as int].subject, k));
                }
                list.push(c);
            },
            None => {
                proof {
                    lemma_walk_stays_none(views(certs@), (step + 1) as nat, (n - 1) as nat);
                }
                return None;
            },
        }
        step = step + 1;
    }
    Some(list)
}

/// Orders `certs` into a chain, leaf first, and returns the DER encoding of
/// each certificate of it. A single certificate is its own chain. The root
/// is kept at the end of the chain.
pub fn sort_certificates(certs: &Vec<CertificateInfo>) -> (r: Result<Vec<Vec<u8>>, ChainError>)
    ensures
        sort_outcome(views(certs@), r),
{
    if certs.len() == 0 {
        return Err(ChainError::Missing);
    }
    let mut out: Vec<Vec<u8>> = Vec::new();
    if certs.len() == 1 {
        out.push(certs[0].der.clone());
        return Ok(out);
    }
    let list = match chain_positions(certs) {
        Some(l) => l,
        None => {
            return Err(ChainError::InvalidCertificate);
        },
    };
    let ghost order = list@.reverse();
    let mut i: usize = list.len();
    while i > 0
        invariant
            i <= list.len(),
            order == list@.reverse(),
            forall|k: int| 0 <= k < list.len() ==> #[trigger] list@[k] < certs.len(),
            out.len() == list.len() - i,
            forall|j: int| 0 <= j < out.len() ==> #[trigger] out@[j]@ == views(certs@)[order[j] as int].der,
        decreases i,
    {
        i = i - 1;
        let d = certs[list[i]].der.clone();
        out.push(d);
        proof {
            assert(order[(list.len() - 1 - i) as int] == list@[i as int]);
        }
    }
    Ok(out)
}

/// The subjects of the certificates are pairwise distinct.
pub open spec fn distinct_subjects(certs: Seq<CertificateView>) -> bool {
    forall|i: int, j: int|
        0 <= i < certs.len() && 0 <= j < certs.len() && i != j ==> #[trigger] certs[i].subject
            != #[trigger] certs[j].subject
}

/// `order` lists every position below `n` exactly once.
pub open spec fn is_permutation(order: Seq<usize>, n: int) -> bool {
    &&& order.len() == n
    &&& forall|i: int| 0 <= i < n ==> #[trigger] order[i] < n
    &&& forall|i: int, j: int| 0 <= i < n && 0 <= j < n && i != j ==> #[trigger] order[i] != #[trigger] order[j]
    &&& forall|p: int| 0 <= p < n ==> #[trigger] occurs(order, p)
}

/// `p` is one of the entries of `order`.
pub open spec fn occurs(order: Seq<usize>, p: int) -> bool {
    exists|i: int| 0 <= i < order.len() && #[trigger] order[i] == p
}

/// Each certificate of `order` but the last was issued by the next one.
pub open spec fn linked(certs: Seq<CertificateView>, order: Seq<usize>) -> bool {
    forall|i: int|
        0 <= i < order.len() - 1 ==> #[trigger] certs[order[i] as int].issuer == certs[order[i
            + 1] as int].subject
}

/// `order` arranges all of `certs` into one chain, leaf first, that ends in
/// a self-signed root; no two certificates share a subject.
pub open spec fn is_chain(certs: Seq<CertificateView>, order: Seq<usize>) -> bool {
    &&& certs.len() >= 1
    &&& distinct_subjects(certs)
    &&& is_permutation(order, certs.len() as int)
    &&& linked(certs, order)
    &&& self_signed(certs[order.last() as int])
}

proof fn lemma_inner_not_self_signed(certs: Seq<CertificateView>, order: Seq<usize>, i: int)
    requires
        is_chain(certs, order),
        0 <= i < order.len() - 1,
    ensures
        !self_signed(certs[order[i] as int]),
{
    assert(certs[order[i] as int].issuer == certs[order[i + 1] as int].subject);
    assert(order[i] != order[i + 1]);
}

proof fn lemma_only_root_self_signed(certs: Seq<CertificateView>, order: Seq<usize>, k: int)
    requires
        is_chain(certs, order),
        0 <= k <= certs.len(),
    ensures
        self_signed_upto(certs, k) == (if order.last() < k {
            seq![order.last()]
        } else {
            seq![]
        }),
    decreases k,
{
    if k > 0 {
        lemma_only_root_self_signed(certs, order, k - 1);
        let p = k - 1;
        if p != order.last() {
            assert(occurs(order, p));
            let i = choose|i: int| 0 <= i < order.len() && #[trigger] order[i] == p;
            assert(order[i] == p);
            if i == order.len() - 1 {
                assert(false);
            }
            lemma_inner_not_self_signed(certs, order, i);
        }
    }
}

proof fn lemma_issued_by_next(certs: Seq<CertificateView>, order: Seq<usize>, t: int)
    requires
        is_chain(certs, order),
        1 <= t < order.len(),
    ensures
        issued_by(certs, certs[order[t] as int].subject) == Some(order[t - 1]),
{
    let name = certs[order[t] as int].subject;
    let c = order[t - 1] as int;
    lemma_inner_not_self_signed(certs, order, t - 1);
    assert(certs[order[t - 1] as int].issuer == certs[order[t] as int].subject);
    assert(issued_by_at(certs, name, c));
    assert forall|j: int| c < j < certs.len() implies !#[trigger] issued_by_at(certs, name, j) by {
        if issued_by_at(certs, name, j) {
            assert(occurs(order, j));
            let m = choose|m: int| 0 <= m < order.len() && #[trigger] order[m] == j;
            assert(order[m] == j);
            if m == order.len() - 1 {
                assert(false);
            }
            assert(certs[order[m] as int].issuer == certs[order[m + 1] as int].subject);
            assert(order[m + 1] == order[t]);
            assert(m + 1 == t);
        }
    }
    assert(last_issued_by_at(certs, name, c));
    let k = choose|k: int| last_issued_by_at(certs, name, k);
    assert(last_issued_by_at(certs, name, k));
    if k < c {
        assert(issued_by_at(certs, name, c));
    } else if k > c {
        assert(issued_by_at(certs, name, k));
    }
}

proof fn lemma_walk_follows_chain(certs: Seq<CertificateView>, order: Seq<usize>, s: nat)
    requires
        is_chain(certs, order),
        s < order.len(),
    ensures
        walk(certs, s) == Some(Seq::new(s + 1, |k: int| order[order.len() - 1 - k])),
    decreases s,
{
    let n = order.len() as int;
    if s == 0 {
        lemma_only_root_self_signed(certs, order, n);
        assert(seed(certs) == seq![order.last()]);
        assert(seq![order.last()] =~= Seq::new(1, |k: int| order[n - 1 - k]));
    } else {
        lemma_walk_follows_chain(certs, order, (s - 1) as nat);
        let l = Seq::new(s as nat, |k: int| order[n - 1 - k]);
        assert(l.last() == order[n - s]);
        lemma_issued_by_next(certs, order, n - s);
        assert(l.push(order[n - s - 1]) =~= Seq::new(s + 1, |k: int| order[n - 1 - k]));
    }
}

/// A set of certificates that forms one chain ending in its only
/// self-signed certificate, with no two certificates sharing a subject, is
/// put back in that order: as many entries as certificates, leaf first, each
/// issued by the next.
pub proof fn lemma_chain_restored(certs: Seq<CertificateView>, order: Seq<usize>)
    requires
        is_chain(certs, order),
    ensures
        chain_order(certs) == Ok::<Seq<usize>, ChainError>(order),
        chain_order(certs) matches Ok(o) && o.len() == certs.len() && linked(certs, o),
{
    let n = certs.len() as int;
    if n == 1 {
        assert(order[0] < 1);
        assert(order =~= seq![0usize]);
    } else {
        lemma_walk_follows_chain(certs, order, (n - 1) as nat);
        let l = Seq::new(n as nat, |k: int| order[n - 1 - k]);
        assert(l.reverse() =~= order);
    }
}

/// A single certificate is a chain of its own, returned unchanged.
pub proof fn lemma_single_certificate(c: CertificateView)
    ensures
        chain_order(seq![c]) == Ok::<Seq<usize>, ChainError>(seq![0usize]),
{
}

/// An empty set of certificates is refused.
pub proof fn lemma_empty_set_refused()
    ensures
        chain_order(Seq::<CertificateView>::empty()) == Err::<Seq<usize>, ChainError>(
            ChainError::Missing,
        ),
{
}

/// The list of a walk: the seed, then certificates each issued by the one
/// before it.
spec fn walk_shape(certs: Seq<CertificateView>, l: Seq<usize>) -> bool {
    let sd = seed(certs);
    &&& l.len() >= sd.len()
    &&& l.subrange(0, sd.len() as int) == sd
    &&& forall|k: int| 0 <= k < l.len() ==> #[trigger] l[k] < certs.len()
    &&& forall|k: int|
        sd.len() <= k < l.len() && k >= 1 ==> issued_by_at(
            certs,
            certs[l[k - 1] as int].subject,
            #[trigger] l[k] as int,
        )
}

proof fn lemma_roots_increasing(certs: Seq<CertificateView>, k: int)
    requires
        0 <= k <= certs.len(),
        certs.len() <= usize::MAX,
    ensures
        forall|i: int|
            0 <= i < self_signed_upto(certs, k).len() ==> #[trigger] self_signed_upto(certs, k)[i]
                < k && self_signed(certs[self_signed_upto(certs, k)[i] as int]),
        forall|i: int, j: int|
            0 <= i < j < self_signed_upto(certs, k).len() ==> #[trigger] self_signed_upto(
                certs,
                k,
            )[i] < #[trigger] self_signed_upto(certs, k)[j],
    decreases k,
{
    if k > 0 {
        lemma_roots_increasing(certs, k - 1);
        let prev = self_signed_upto(certs, k - 1);
        let cur = self_signed_upto(certs, k);
        if self_signed(certs[k - 1]) {
            assert(cur == prev.push((k - 1) as usize));
            assert forall|i: int| 0 <= i < cur.len() implies #[trigger] cur[i] < k && self_signed(
                certs[cur[i] as int],
            ) by {
                if i < prev.len() {
                    assert(cur[i] == prev[i]);
                }
            }
            assert forall|i: int, j: int| 0 <= i < j < cur.len() implies #[trigger] cur[i]
                < #[trigger] cur[j] by {
                assert(cur[i] == prev[i]);
                if j < prev.len() {
                    assert(cur[j] == prev[j]);
                }
            }
        } else {
            assert(cur == prev);
        }
    }
}

proof fn lemma_seed_facts(certs: Seq<CertificateView>)
    requires
        certs.len() <= usize::MAX,
    ensures
        forall|i: int| 0 <= i < seed(certs).len() ==> #[trigger] seed(certs)[i] < certs.len(),
        forall|i: int, j: int|
            0 <= i < seed(certs).len() && 0 <= j < seed(certs).len() && i != j
                ==> #[trigger] seed(certs)[i] != #[trigger] seed(certs)[j],
        forall|i: int|
            0 <= i < seed(certs).len() ==> self_signed(certs[#[trigger] seed(certs)[i] as int])
                || is_top(certs, seed(certs)[i] as int),
{
    let n = certs.len() as int;
    lemma_roots_increasing(certs, n);
    let roots = self_signed_upto(certs, n);
    if roots.len() == 0 {
        if let Some(t) = top(certs) {
            let k = choose|k: int| last_top_at(certs, k);
            assert(last_top_at(certs, k));
        }
    } else {
        assert forall|i: int, j: int|
            0 <= i < roots.len() && 0 <= j < roots.len() && i != j implies #[trigger] roots[i]
            != #[trigger] roots[j] by {
            if i < j {
                assert(roots[i] < roots[j]);
            } else {
                assert(roots[j] < roots[i]);
            }
        }
    }
}

proof fn lemma_walk_shape(certs: Seq<CertificateView>, s: nat)
    requires
        certs.len() <= usize::MAX,
        walk(certs, s) is Some,
    ensures
        walk_shape(certs, walk(certs, s)->Some_0),
        walk(certs, s)->Some_0.len() == seed(certs).len() + s,
    decreases s,
{
    lemma_seed_facts(certs);
    if s == 0 {
        assert(seed(certs).subrange(0, seed(certs).len() as int) =~= seed(certs));
    } else {
        lemma_walk_shape(certs, (s - 1) as nat);
        let l = walk(certs, (s - 1) as nat)->Some_0;
        let name = certs[l.last() as int].subject;
        let k = choose|k: int| last_issued_by_at(certs, name, k);
        assert(last_issued_by_at(certs, name, k));
        let c = issued_by(certs, name)->Some_0;
        assert(c as int == k);
        let l2 = l.push(c);
        assert(walk(certs, s) == Some(l2));
        assert(l2.subrange(0, seed(certs).len() as int) =~= l.subrange(0, seed(certs).len() as int));
        assert forall|j: int|
            seed(certs).len() <= j < l2.len() && j >= 1 implies issued_by_at(
            certs,
            certs[l2[j - 1] as int].subject,
            #[trigger] l2[j] as int,
        ) by {
            if j < l.len() {
                assert(l2[j] == l[j]);
                assert(l2[j - 1] == l[j - 1]);
            } else {
                assert(l2[j] == c);
                assert(l2[j - 1] == l.last());
            }
        }
    }
}

proof fn lemma_walk_distinct(certs: Seq<CertificateView>, s: nat)
    requires
        certs.len() <= usize::MAX,
        distinct_subjects(certs),
        walk(certs, s) is Some,
    ensures
        forall|i: int, j: int|
            0 <= i < walk(certs, s)->Some_0.len() && 0 <= j < walk(certs, s)->Some_0.len() && i
                != j ==> #[trigger] walk(certs, s)->Some_0[i] != #[trigger] walk(
                certs,
                s,
            )->Some_0[j],
    decreases s,
{
    lemma_seed_facts(certs);
    lemma_walk_shape(certs, s);
    if s > 0 {
        lemma_walk_distinct(certs, (s - 1) as nat);
        lemma_walk_shape(certs, (s - 1) as nat);
        let l = walk(certs, (s - 1) as nat)->Some_0;
        let l2 = walk(certs, s)->Some_0;
        let sd = seed(certs);
        if sd.len() == 0 {
            assert(walk(certs, 0) == Some(sd));
            assert(walk(certs, 1) is None);
            lemma_walk_stays_none(certs, 1, s);
        }
        let last = l.len() - 1;
        assert(l2 == l.push(l2[l.len() as int]));
        let c = l2[l.len() as int];
        assert(issued_by_at(certs, certs[l2[l.len() - 1] as int].subject, c as int));
        assert(l2[l.len() - 1] == l[last]);
        assert forall|j: int| 0 <= j < l.len() implies l[j] != c by {
            if l[j] == c {
                if j < sd.len() {
                    assert(l.subrange(0, sd.len() as int)[j] == sd[j]);
                    assert(self_signed(certs[sd[j] as int]) || is_top(certs, sd[j] as int));
                    if is_top(certs, sd[j] as int) {
                        assert(certs[l[last] as int].subject != certs[c as int].issuer);
                    }
                } else {
                    assert(issued_by_at(certs, certs[l[j - 1] as int].subject, l[j] as int));
                    assert(certs[l[j - 1] as int].subject == certs[l[last] as int].subject);
                    assert(l[j - 1] == l[last]);
                }
            }
        }
        assert forall|i: int, j: int|
            0 <= i < l2.len() && 0 <= j < l2.len() && i != j implies #[trigger] l2[i]
            != #[trigger] l2[j] by {
            if i < l.len() && j < l.len() {
                assert(l2[i] == l[i] && l2[j] == l[j]);
            } else if i < l.len() {
                assert(l2[i] == l[i]);
            } else if j < l.len() {
                assert(l2[j] == l[j]);
            }
        }
    }
}

/// Distinct entries below `m` are at most `m`, and exactly `m` of them
/// are all of the positions below `m`.
proof fn lemma_pigeonhole(s: Seq<usize>, m: int)
    requires
        m >= 0,
        forall|i: int| 0 <= i < s.len() ==> #[trigger] s[i] < m,
        forall|i: int, j: int|
            0 <= i < s.len() && 0 <= j < s.len() && i != j ==> #[trigger] s[i] != #[trigger] s[j],
    ensures
        s.len() <= m,
        s.len() == m ==> forall|p: int| 0 <= p < m ==> #[trigger] occurs(s, p),
{
    let t = s.map_values(|x: usize| x as int);
    assert(t.no_duplicates()) by {
        assert forall|i: int, j: int| 0 <= i < t.len() && 0 <= j < t.len() && i != j implies t[i]
            != t[j] by {
            assert(s[i] != s[j]);
        }
    }
    t.unique_seq_to_set();
    vstd::set_lib::lemma_int_range(0, m);
    let range = vstd::set_lib::set_int_range(0, m);
    assert(t.to_set().subset_of(range)) by {
        assert forall|x: int| t.to_set().contains(x) implies range.contains(x) by {
            let i = choose|i: int| 0 <= i < t.len() && t[i] == x;
            assert(s[i] < m);
        }
    }
    vstd::set_lib::lemma_len_subset(t.to_set(), range);
    if s.len() == m {
        assert forall|p: int| 0 <= p < m implies #[trigger] occurs(s, p) by {
            if !occurs(s, p) {
                assert(t.to_set().subset_of(range.remove(p))) by {
                    assert forall|x: int| t.to_set().contains(x) implies range.remove(p).contains(
                        x,
                    ) by {
                        let i = choose|i: int| 0 <= i < t.len() && t[i] == x;
                        assert(s[i] < m);
                        if x == p {
                            assert(s[i] == p);
                        }
                    }
                }
                vstd::set_lib::lemma_len_subset(t.to_set(), range.remove(p));
            }
        }
    }
}

/// With no two certificates sharing a subject, a chain that the normalizer
/// returns holds every certificate exactly once, each issued by the next.
pub proof fn lemma_chain_complete(certs: Seq<CertificateView>)
    requires
        certs.len() <= usize::MAX,
        distinct_subjects(certs),
        chain_order(certs) is Ok,
    ensures
        is_permutation(chain_order(certs)->Ok_0, certs.len() as int),
        linked(certs, chain_order(certs)->Ok_0),
{
    let n = certs.len() as int;
    let o = chain_order(certs)->Ok_0;
    if n == 1 {
        assert(o[0] == 0);
        assert(occurs(o, 0));
    } else {
        let s = (n - 1) as nat;
        lemma_walk_shape(certs, s);
        lemma_walk_distinct(certs, s);
        let l = walk(certs, s)->Some_0;
        lemma_walk_shape(certs, 0);
        if seed(certs).len() == 0 {
            assert(walk(certs, 1) is None);
            lemma_walk_stays_none(certs, 1, s);
        }
        lemma_pigeonhole(l, n);
        assert(l.len() == n);
        assert forall|i: int| 0 <= i < n implies #[trigger] o[i] < n by {
            assert(o[i] == l[n - 1 - i]);
        }
        assert forall|i: int, j: int| 0 <= i < n && 0 <= j < n && i != j implies #[trigger] o[i]
            != #[trigger] o[j] by {
            assert(o[i] == l[n - 1 - i] && o[j] == l[n - 1 - j]);
        }
        assert forall|p: int| 0 <= p < n implies #[trigger] occurs(o, p) by {
            assert(occurs(l, p));
            let i = choose|i: int| 0 <= i < l.len() && #[trigger] l[i] == p;
            assert(o[n - 1 - i] == l[i]);
        }
        assert forall|i: int| 0 <= i < o.len() - 1 implies #[trigger] certs[o[i] as int].issuer
            == certs[o[i + 1] as int].subject by {
            let k = n - 1 - i;
            assert(o[i] == l[k] && o[i + 1] == l[k - 1]);
            assert(issued_by_at(certs, certs[l[k - 1] as int].subject, l[k] as int));
        }
    }
}

/// With no two certificates sharing a subject, a set whose certificates
/// cannot all be put in one chain, each issued by the next, lacks a link
/// that the chain needs: it is refused with `InvalidCertificate`.
pub proof fn lemma_missing_link_refused(certs: Seq<CertificateView>)
    requires
        1 <= certs.len() <= usize::MAX,
        distinct_subjects(certs),
        forall|order: Seq<usize>|
            is_permutation(order, certs.len() as int) ==> !#[trigger] linked(certs, order),
    ensures
        chain_order(certs) == Err::<Seq<usize>, ChainError>(ChainError::InvalidCertificate),
{
    if chain_order(certs) is Ok {
        lemma_chain_complete(certs);
        assert(!linked(certs, chain_order(certs)->Ok_0));
    }
}

/// When the walk from the seed, before it has taken in every certificate,
/// reaches a certificate that issued no certificate of the set, a link
/// that the chain needs is missing: the set is refused with
/// `InvalidCertificate`, and no partial chain is returned.
pub proof fn lemma_broken_walk_refused(certs: Seq<CertificateView>, k: nat)
    requires
        certs.len() >= 2,
        k < certs.len() - 1,
        walk(certs, k) matches Some(l) && l.len() > 0 && forall|j: int|
            !#[trigger] issued_by_at(certs, certs[l.last() as int].subject, j),
    ensures
        chain_order(certs) == Err::<Seq<usize>, ChainError>(ChainError::InvalidCertificate),
{
    let l = walk(certs, k)->Some_0;
    let name = certs[l.last() as int].subject;
    if exists|i: int| last_issued_by_at(certs, name, i) {
        let i = choose|i: int| last_issued_by_at(certs, name, i);
        assert(issued_by_at(certs, name, i));
    }
    assert(walk(certs, k + 1) is None);
    lemma_walk_stays_none(certs, k + 1, (certs.len() - 1) as nat);
}

} // verus!
