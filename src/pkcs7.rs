//! Reading the certificate bundle that the signing service returns: a CMS
//! (PKCS #7) signed-data envelope whose certificate set is ordered by
//! [`crate::chain`].
use cms::cert::x509::der::{Decode, Encode};
use cms::cert::CertificateChoices;
use cms::content_info::ContentInfo;
use cms::signed_data::SignedData;
use vstd::prelude::*;

use crate::chain::{sort_certificates, sort_outcome, views, CertificateInfo, CertificateView, ChainError};

verus! {

/// What a bundle's certificate set holds, entry by entry: for a
/// certificate, the text of its subject and issuer names and its DER
/// encoding (none where it could not be encoded); none for the other kinds
/// of entry. The outer `None` is a bundle that does not decode as signed
/// data; `Some(None)` is one without a certificate set.
pub uninterp spec fn bundle_entries(bundle: Seq<u8>) -> Option<
    Option<Seq<Option<(Seq<char>, Seq<char>, Option<Seq<u8>>)>>>,
>;

/// The view of one entry as [`read_bundle`] returns it.
pub open spec fn entry_view(e: Option<(String, String, Option<Vec<u8>>)>) -> Option<
    (Seq<char>, Seq<char>, Option<Seq<u8>>),
> {
    match e {
        None => None,
        Some((s, i, d)) => Some(
            (
                s@,
                i@,
                match d {
                    Some(v) => Some(v@),
                    None => None,
                },
            ),
        ),
    }
}

/// The view of a bundle as [`read_bundle`] returns it.
pub open spec fn entries_view(r: Option<Option<Vec<Option<(String, String, Option<Vec<u8>>)>>>>) -> Option<
    Option<Seq<Option<(Seq<char>, Seq<char>, Option<Seq<u8>>)>>>,
> {
    match r {
        None => None,
        Some(None) => Some(None),
        Some(Some(v)) => Some(Some(Seq::new(v.len() as nat, |k: int| entry_view(v@[k])))),
    }
}

/// Relies on cms 0.2: `der::Decode::from_der` for the `ContentInfo`
/// envelope, `der::asn1::Any::decode_as` for its signed data, and, for each
/// entry of the certificate set that is a certificate, `Display` of
/// `x509_cert::name::RdnSequence` for its subject and issuer and
/// `der::Encode::to_der` for its encoding.
#[verifier::external_body]
fn read_bundle(bundle: &[u8]) -> (r: Option<Option<Vec<Option<(String, String, Option<Vec<u8>>)>>>>)
    ensures
        entries_view(r) == bundle_entries(bundle@),
{
    let info = ContentInfo::from_der(bundle).ok()?;
    let data: SignedData = info.content.decode_as().ok()?;
    Some(data.certificates.map(|set| set.0.iter().map(|choice| match choice {
        CertificateChoices::Certificate(c) => Some((
            c.tbs_certificate.subject.to_string(),
            c.tbs_certificate.issuer.to_string(),
            c.to_der().ok(),
        )),
        _ => None,
    }).collect()))
}

/// The certificates among `entries`, in their order; the other kinds of
/// entry are passed over.
pub open spec fn certificates_in(entries: Seq<Option<(Seq<char>, Seq<char>, Option<Seq<u8>>)>>) -> Seq<
    CertificateView,
>
    decreases entries.len(),
{
    if entries.len() == 0 {
        seq![]
    } else {
        let prev = certificates_in(entries.drop_last());
        match entries.last() {
            Some((s, i, Some(d))) => prev.push(CertificateView { subject: s, issuer: i, der: d }),
            _ => prev,
        }
    }
}

/// Every certificate among `entries` has its encoding.
pub open spec fn all_encoded(entries: Seq<Option<(Seq<char>, Seq<char>, Option<Seq<u8>>)>>) -> bool {
    forall|k: int| 0 <= k < entries.len() ==> !(#[trigger] entries[k] matches Some((_, _, None)))
}

/// `r` is what reading the bundle `bundle` gives: `InvalidCertificate` for
/// a bundle that does not decode or a certificate that cannot be encoded,
/// `Missing` for a bundle without a certificate set, and otherwise what the
/// normalizer gives for the certificates of the set, in their order.
pub open spec fn bundle_outcome(bundle: Seq<u8>, r: Result<Vec<Vec<u8>>, ChainError>) -> bool {
    match bundle_entries(bundle) {
        None => r == Err::<Vec<Vec<u8>>, ChainError>(ChainError::InvalidCertificate),
        Some(None) => r == Err::<Vec<Vec<u8>>, ChainError>(ChainError::Missing),
        Some(Some(entries)) => if all_encoded(entries) {
            sort_outcome(certificates_in(entries), r)
        } else {
            r == Err::<Vec<Vec<u8>>, ChainError>(ChainError::InvalidCertificate)
        },
    }
}

/// A certificate bundle as the signing service returns it, before it is
/// read.
pub struct CertificateChain(pub Vec<u8>);

impl CertificateChain {
    pub fn from_cert_chain(cert_chain: Vec<u8>) -> (r: Self)
        ensures
            r.0 == cert_chain,
    {
        CertificateChain(cert_chain)
    }

    /// Reads the certificates of the bundle and orders them into a chain,
    /// leaf first, as DER encodings.
    pub fn get_pem_certificates(&self) -> (r: Result<Vec<Vec<u8>>, ChainError>)
        ensures
            bundle_outcome(self.0@, r),
    {
        let read = read_bundle(self.0.as_slice());
        let entries = match read {
            None => {
                return Err(ChainError::InvalidCertificate);
            },
            Some(None) => {
                return Err(ChainError::Missing);
            },
            Some(Some(entries)) => entries,
        };
        let ghost es = Seq::new(entries.len() as nat, |k: int| entry_view(entries@[k]));
        assert(bundle_entries(self.0@) == Some(Some(es)));
        let mut certs: Vec<CertificateInfo> = Vec::new();
        let mut i: usize = 0;
        while i < entries.len()
            invariant
                i <= entries.len(),
                es == Seq::new(entries.len() as nat, |k: int| entry_view(entries@[k])),
                bundle_entries(self.0@) == Some(Some(es)),
                views(certs@) == certificates_in(es.take(i as int)),
                all_encoded(es.take(i as int)),
            decreases entries.len() - i,
        {
            let ghost before = certs@;
            assert(es.take(i + 1).drop_last() =~= es.take(i as int));
            match &entries[i] {
                Some((subject, issuer, Some(der))) => {
                    certs.push(
                        CertificateInfo {
                            subject: subject.clone(),
                            issuer: issuer.clone(),
                            der: der.clone(),
                        },
                    );
                    assert(views(certs@) =~= views(before).push(certs@[certs.len() - 1]@));
                },
                Some((_, _, None)) => {
                    assert(es[i as int] matches Some((_, _, None)));
                    assert(!all_encoded(es));
                    return Err(ChainError::InvalidCertificate);
                },
                None => {},
            }
            assert forall|k: int| 0 <= k < i + 1 implies !(#[trigger] es.take(i + 1)[k] matches Some(
                (_, _, None),
            )) by {
                if k < i {
                    assert(es.take(i + 1)[k] == es.take(i as int)[k]);
                }
            }
            i = i + 1;
        }
        assert(es.take(entries.len() as int) =~= es);
        sort_certificates(&certs)
    }
}

} // verus!
