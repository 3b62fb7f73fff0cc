//! The decisions of the managed-identity credential: which resource a scope
//! names, what the token request asks for, how a failed answer is reported,
//! and when a cached token has to be renewed.
use vstd::prelude::*;

verus! {

/// The version of the identity endpoint's interface.
pub const IMDS_API_VERSION: &'static str = "2019-08-01";

/// The suffix that turns a resource into a scope.
pub const DEFAULT_SUFFIX: &'static str = "/.default";

/// How long before its expiry a token is already treated as expired, in
/// nanoseconds.
pub const EXPIRY_MARGIN_NANOS: i128 = 20_000_000_000;

/// The identity that a token is asked for.
#[derive(Clone, Debug)]
pub enum ImdsId {
    SystemAssigned,
    ClientId(String),
    ObjectId(String),
    MsiResId(String),
}

/// Why a token could not be had.
#[derive(Clone, Copy, Debug, PartialEq, Eq, Structural)]
pub enum CredentialError {
    /// Exactly one scope is needed.
    ScopeCount,
    /// The identity has not been assigned to this resource.
    NotAssigned,
    /// A gateway failed on the way to the identity endpoint.
    Gateway,
    /// The identity endpoint answered with this failing status.
    Http(u16),
}

/// The resource that `scope` names: the scope without its `/.default`
/// suffix, where it has one.
pub open spec fn resource_of(scope: Seq<char>) -> Seq<char> {
    let suffix = DEFAULT_SUFFIX@;
    if scope.len() >= suffix.len() && scope.subrange(scope.len() - suffix.len(), scope.len() as int)
        == suffix {
        scope.subrange(0, scope.len() - suffix.len())
    } else {
        scope
    }
}

/// The resource to ask a token for, from the scopes of a token request.
pub fn scopes_to_resource<'a>(scopes: &'a [&'a str]) -> (r: Result<&'a str, CredentialError>)
    ensures
        scopes@.len() != 1 ==> r == Err::<&str, CredentialError>(CredentialError::ScopeCount),
        scopes@.len() == 1 ==> (r matches Ok(res) && res@ == resource_of(scopes@[0]@)),
{
    if scopes.len() != 1 {
        return Err(CredentialError::ScopeCount);
    }
    let scope: &'a str = scopes[0];
    let n = scope.unicode_len();
    let m = DEFAULT_SUFFIX.unicode_len();
    if n >= m {
        let tail = String::from_str(scope.substring_char(n - m, n));
        if tail == String::from_str(DEFAULT_SUFFIX) {
            return Ok(scope.substring_char(0, n - m));
        }
    }
    Ok(scope)
}

/// A token that expires at `expires_on` is treated as expired at `now`
/// (both in nanoseconds since the Unix epoch).
pub open spec fn expired(expires_on: int, now: int) -> bool {
    expires_on < now + EXPIRY_MARGIN_NANOS
}

/// Whether a token that expires at `expires_on_nanos` has to be renewed at
/// `now_nanos`.
pub fn is_expired(expires_on_nanos: i128, now_nanos: i128) -> (r: bool)
    ensures
        r == expired(expires_on_nanos as int, now_nanos as int),
{
    if now_nanos > i128::MAX - EXPIRY_MARGIN_NANOS {
        true
    } else {
        expires_on_nanos < now_nanos + EXPIRY_MARGIN_NANOS
    }
}

/// An HTTP status of success.
pub open spec fn is_success(status: u16) -> bool {
    200 <= status < 300
}

/// How an answer of the identity endpoint with `status` fails, if it does.
pub fn token_failure(status: u16) -> (r: Option<CredentialError>)
    ensures
        is_success(status) ==> r is None,
        !is_success(status) && status == 400 ==> r == Some(CredentialError::NotAssigned),
        !is_success(status) && (status == 502 || status == 504) ==> r == Some(
            CredentialError::Gateway,
        ),
        !is_success(status) && status != 400 && status != 502 && status != 504 ==> r == Some(
            CredentialError::Http(status),
        ),
{
    if 200 <= status && status < 300 {
        None
    } else if status == 400 {
        Some(CredentialError::NotAssigned)
    } else if status == 502 || status == 504 {
        Some(CredentialError::Gateway)
    } else {
        Some(CredentialError::Http(status))
    }
}

/// The query of a token request: the interface version, the resource, and
/// the identity unless it is the one the system assigned.
pub open spec fn token_query_of(api_version: Seq<char>, resource: Seq<char>, id: ImdsId) -> Seq<
    (Seq<char>, Seq<char>),
> {
    let base = seq![("api-version"@, api_version), ("resource"@, resource)];
    match id {
        ImdsId::SystemAssigned => base,
        ImdsId::ClientId(c) => base.push(("client_id"@, c@)),
        ImdsId::ObjectId(o) => base.push(("object_id"@, o@)),
        ImdsId::MsiResId(m) => base.push(("msi_res_id"@, m@)),
    }
}

fn pair(key: &str, value: &str) -> (r: (String, String))
    ensures
        r.0@ == key@,
        r.1@ == value@,
{
    (String::from_str(key), String::from_str(value))
}

/// The query of a token request for `resource` and the identity `id`.
pub fn token_query(api_version: &str, resource: &str, id: &ImdsId) -> (r: Vec<(String, String)>)
    ensures
        r@.len() == token_query_of(api_version@, resource@, *id).len(),
        forall|i: int|
            0 <= i < r@.len() ==> (#[trigger] r@[i]).0@ == token_query_of(
                api_version@,
                resource@,
                *id,
            )[i].0 && r@[i].1@ == token_query_of(api_version@, resource@, *id)[i].1,
{
    let mut query: Vec<(String, String)> = Vec::new();
    query.push(pair("api-version", api_version));
    query.push(pair("resource", resource));
    match id {
        ImdsId::SystemAssigned => {},
        ImdsId::ClientId(c) => query.push(pair("client_id", c.as_str())),
        ImdsId::ObjectId(o) => query.push(pair("object_id", o.as_str())),
        ImdsId::MsiResId(m) => query.push(pair("msi_res_id", m.as_str())),
    }
    query
}

} // verus!
