//! The signing protocol of the remote signing service: where requests go,
//! what they carry, and what the client decides on each status that the
//! service reports for a signing operation.
//!
//! Sending the requests and waiting between polls is left to the caller;
//! this module says what to send and what to do with each answer.
use azure_core::http::Url;
use vstd::prelude::*;

use crate::algorithm::{alg_name, SigningAlg};
use crate::chain::ChainError;
use crate::encoding::{base64_bytes, base64_text, decode_base64, encode_base64};
use crate::pkcs7::{bundle_outcome, CertificateChain};

verus! {

/// The version of the service's interface that the client speaks.
pub const DEFAULT_API_VERSION: &'static str = "2022-06-15-preview";

/// The audience of the access tokens that the service accepts.
pub const DEFAULT_SCOPE: &'static str = "https://codesigning.azure.net/.default";

/// How many statuses a signing operation may take, the answer to the
/// submission included, before the client gives up.
pub const MAX_ATTEMPTS: u32 = 5;

/// How long to wait before asking again for the status of an operation.
pub const POLL_INTERVAL_MS: u64 = 250;

/// How many times the transport retries a failed request.
pub const MAX_RETRIES: u32 = 5;

/// The longest wait between two retries of the transport.
pub const MAX_RETRY_DELAY_SECONDS: u64 = 10;

/// `url::Url`, the address of the service and of each request.
#[verifier::external_type_specification]
#[verifier::external_body]
pub struct ExUrl(Url);

/// Relies on the derived `Clone` of `url::Url`, which copies every field.
pub assume_specification[ <Url as Clone>::clone ](url: &Url) -> (r: Url)
    ensures
        r == *url,
;

/// The address `input` resolved against `base`; none where that is not a
/// valid address.
pub uninterp spec fn joined(base: Url, input: Seq<char>) -> Option<Url>;

/// Relies on `url::Url::join`: `input` resolved against `base`, none where
/// that is not a valid address.
#[verifier::external_body]
fn join_url(base: &Url, input: &str) -> (r: Option<Url>)
    ensures
        r == joined(*base, input@),
{
    base.join(input).ok()
}

/// How the transport below the client retries a failed request: with an
/// exponential backoff, at most `max_retries` times, waiting at most
/// `max_delay_seconds` between two tries.
#[derive(Clone, Copy, Debug, PartialEq, Eq, Structural)]
pub struct RetryPolicy {
    pub max_retries: u32,
    pub max_delay_seconds: u64,
}

/// The account and certificate profile that sign, and how to reach the
/// service.
#[derive(Clone, Debug)]
pub struct TrustedSigningClientOptions {
    pub api_version: String,
    pub account: String,
    pub certificate_profile: String,
    pub retry: RetryPolicy,
    pub scope: String,
}

impl TrustedSigningClientOptions {
    pub fn new(account: &str, certificate_profile: &str) -> (r: Self)
        ensures
            r.api_version@ == DEFAULT_API_VERSION@,
            r.account@ == account@,
            r.certificate_profile@ == certificate_profile@,
            r.retry == (RetryPolicy {
                max_retries: MAX_RETRIES,
                max_delay_seconds: MAX_RETRY_DELAY_SECONDS,
            }),
            r.scope@ == DEFAULT_SCOPE@,
    {
        TrustedSigningClientOptions {
            api_version: String::from_str(DEFAULT_API_VERSION),
            account: String::from_str(account),
            certificate_profile: String::from_str(certificate_profile),
            retry: RetryPolicy { max_retries: MAX_RETRIES, max_delay_seconds: MAX_RETRY_DELAY_SECONDS },
            scope: String::from_str(DEFAULT_SCOPE),
        }
    }
}

/// The body of a signing request: the algorithm by name, and the digest in
/// base64.
pub struct SigningRequest {
    pub signature_algorithm: String,
    pub digest: String,
}

impl SigningRequest {
    pub fn new(alg: SigningAlg, digest: &[u8]) -> (r: Self)
        ensures
            r.signature_algorithm@ == alg_name(alg),
            r.digest@ == base64_text(digest@),
    {
        SigningRequest { signature_algorithm: alg.name(), digest: encode_base64(digest) }
    }
}

/// The state of a signing operation, as the service reports it.
#[derive(Clone, Copy, Debug, PartialEq, Eq, Structural)]
pub enum Status {
    InProgress,
    Succeeded,
    Failed,
    TimedOut,
    NotFound,
    Running,
}

/// The service's answer on a signing operation.
#[derive(Clone, Debug)]
pub struct SigningStatus {
    pub operation_id: String,
    pub status: Status,
    pub signature: Option<String>,
    pub signing_certificate: Option<String>,
}

/// Why signing or fetching the certificates failed.
#[derive(Clone, Copy, Debug, PartialEq, Eq, Structural)]
pub enum SigningError {
    /// The service ended the operation without a signature.
    ServiceRejected(Status),
    /// The operation was still running at its last allowed status.
    PollExhausted,
    /// The operation succeeded without a signature in base64.
    InvalidSignature,
    /// The certificate bundle could not be made into a chain.
    CertificateChainInvalid(ChainError),
    /// The digest cannot be made for the configured algorithm.
    UnsupportedAlgorithm,
    /// The address of a request could not be formed from the endpoint.
    InvalidUrl,
}

/// The service is still working on the operation.
pub open spec fn still_running(status: Status) -> bool {
    status == Status::InProgress || status == Status::Running
}

/// What a signing operation does on a status, apart from what it carries.
#[derive(Clone, Copy, Debug, PartialEq, Eq, Structural)]
pub enum Decision {
    /// Return the signature.
    Finish,
    /// Give up with the status that the service reported.
    Reject,
    /// Wait, then ask for the status again.
    Again,
    /// Give up: the last allowed status came and the operation still runs.
    Exhausted,
}

/// The decision on the status that an operation receives at `attempt`,
/// counting from zero for the answer to the submission.
pub open spec fn poll_decision(attempt: nat, status: Status) -> Decision {
    if status == Status::Succeeded {
        Decision::Finish
    } else if still_running(status) {
        if attempt + 1 >= MAX_ATTEMPTS {
            Decision::Exhausted
        } else {
            Decision::Again
        }
    } else {
        Decision::Reject
    }
}

/// What a signing operation goes on with after a status.
#[derive(Debug)]
pub enum PollStep {
    /// The operation succeeded with this signature.
    Done(Vec<u8>),
    /// Ask again, after the poll interval, for the operation of this id.
    Poll(String),
}

/// A signing operation on the client's side: how many statuses it has
/// received.
#[derive(Clone, Copy, Debug, PartialEq, Eq, Structural)]
pub struct SignOperation {
    pub attempts: u32,
}

impl SignOperation {
    /// A new operation, for a request just about to be submitted.
    pub fn new() -> (r: Self)
        ensures
            r.attempts == 0,
    {
        SignOperation { attempts: 0 }
    }

    /// Takes the status that the service reported for the operation and
    /// says how to go on: with the decoded signature, with another poll,
    /// or with an error.
    pub fn on_status(&mut self, status: SigningStatus) -> (r: Result<PollStep, SigningError>)
        requires
            old(self).attempts < MAX_ATTEMPTS,
        ensures
            final(self).attempts == old(self).attempts + 1,
            match poll_decision(old(self).attempts as nat, status.status) {
                Decision::Finish => match status.signature {
                    Some(s) => match base64_bytes(s@) {
                        Some(b) => r matches Ok(PollStep::Done(sig)) && sig@ == b,
                        None => r == Err::<PollStep, SigningError>(SigningError::InvalidSignature),
                    },
                    None => r == Err::<PollStep, SigningError>(SigningError::InvalidSignature),
                },
                Decision::Again => r matches Ok(PollStep::Poll(id)) && id == status.operation_id,
                Decision::Exhausted => r == Err::<PollStep, SigningError>(
                    SigningError::PollExhausted,
                ),
                Decision::Reject => r == Err::<PollStep, SigningError>(
                    SigningError::ServiceRejected(status.status),
                ),
            },
            r matches Ok(PollStep::Poll(_)) ==> final(self).attempts < MAX_ATTEMPTS,
    {
        self.attempts = self.attempts + 1;
        match status.status {
            Status::Succeeded => match status.signature {
                Some(s) => match decode_base64(s.as_str()) {
                    Some(sig) => Ok(PollStep::Done(sig)),
                    None => Err(SigningError::InvalidSignature),
                },
                None => Err(SigningError::InvalidSignature),
            },
            Status::InProgress | Status::Running => {
                if self.attempts >= MAX_ATTEMPTS {
                    Err(SigningError::PollExhausted)
                } else {
                    Ok(PollStep::Poll(status.operation_id))
                }
            },
            other => Err(SigningError::ServiceRejected(other)),
        }
    }
}

/// The path, below the endpoint, of an account's certificate profile.
pub open spec fn profile_path(account: Seq<char>, profile: Seq<char>) -> Seq<char> {
    "/codesigningaccounts/"@ + account + "/certificateprofiles/"@ + profile
}

/// Where the certificate chain of a profile is fetched.
pub open spec fn certificate_chain_path_of(
    account: Seq<char>,
    profile: Seq<char>,
    api_version: Seq<char>,
) -> Seq<char> {
    profile_path(account, profile) + "/sign/certchain?api-version="@ + api_version
}

/// Where a signing request is submitted.
pub open spec fn sign_path_of(account: Seq<char>, profile: Seq<char>, api_version: Seq<char>) -> Seq<char> {
    profile_path(account, profile) + "/sign?api-version="@ + api_version
}

/// Where the status of a signing operation is asked for.
pub open spec fn operation_path_of(
    account: Seq<char>,
    profile: Seq<char>,
    operation_id: Seq<char>,
    api_version: Seq<char>,
) -> Seq<char> {
    profile_path(account, profile) + "/sign/"@ + operation_id + "?api-version="@ + api_version
}

/// A client of the signing service for one account and certificate profile.
/// It keeps no state between requests.
#[derive(Clone, Debug)]
pub struct TrustedSigningClient {
    pub endpoint: Url,
    pub options: TrustedSigningClientOptions,
}

impl TrustedSigningClient {
    pub fn new(endpoint: Url, options: TrustedSigningClientOptions) -> (r: Self)
        ensures
            r.endpoint == endpoint,
            r.options == options,
    {
        TrustedSigningClient { endpoint, options }
    }

    fn profile_path(&self) -> (r: String)
        ensures
            r@ == profile_path(self.options.account@, self.options.certificate_profile@),
    {
        let mut path = String::from_str("/codesigningaccounts/");
        path.append(self.options.account.as_str());
        path.append("/certificateprofiles/");
        path.append(self.options.certificate_profile.as_str());
        path
    }

    /// The path of the certificate chain of the profile.
    pub fn certificate_chain_path(&self) -> (r: String)
        ensures
            r@ == certificate_chain_path_of(
                self.options.account@,
                self.options.certificate_profile@,
                self.options.api_version@,
            ),
    {
        let mut path = self.profile_path();
        path.append("/sign/certchain?api-version=");
        path.append(self.options.api_version.as_str());
        path
    }

    /// The path to submit a signing request to.
    pub fn sign_path(&self) -> (r: String)
        ensures
            r@ == sign_path_of(
                self.options.account@,
                self.options.certificate_profile@,
                self.options.api_version@,
            ),
    {
        let mut path = self.profile_path();
        path.append("/sign?api-version=");
        path.append(self.options.api_version.as_str());
        path
    }

    /// The path to ask for the status of the operation `operation_id`.
    pub fn operation_path(&self, operation_id: &str) -> (r: String)
        ensures
            r@ == operation_path_of(
                self.options.account@,
                self.options.certificate_profile@,
                operation_id@,
                self.options.api_version@,
            ),
    {
        let mut path = self.profile_path();
        path.append("/sign/");
        path.append(operation_id);
        path.append("?api-version=");
        path.append(self.options.api_version.as_str());
        path
    }

    /// The address of `path` on the service's endpoint.
    pub fn url_for(&self, path: &str) -> (r: Result<Url, SigningError>)
        ensures
            match joined(self.endpoint, path@) {
                Some(u) => r == Ok::<Url, SigningError>(u),
                None => r == Err::<Url, SigningError>(SigningError::InvalidUrl),
            },
    {
        match join_url(&self.endpoint, path) {
            Some(url) => Ok(url),
            None => Err(SigningError::InvalidUrl),
        }
    }

    /// The request that submits `digest` for signing. Every submission is
    /// a request of its own, which depends on the digest alone.
    pub fn sign_request(&self, digest: &[u8]) -> (r: SigningRequest)
        ensures
            r.signature_algorithm@ == alg_name(SigningAlg::Ps384),
            r.digest@ == base64_text(digest@),
    {
        SigningRequest::new(SigningAlg::Ps384, digest)
    }

    /// The certificate chain, leaf first, in the bundle that the service
    /// returned.
    pub fn certificates_from_body(body: Vec<u8>) -> (r: Result<Vec<Vec<u8>>, SigningError>)
        ensures
            match r {
                Ok(ders) => bundle_outcome(body@, Ok(ders)),
                Err(SigningError::CertificateChainInvalid(e)) => bundle_outcome(body@, Err(e)),
                Err(_) => false,
            },
    {
        let chain = CertificateChain::from_cert_chain(body);
        match chain.get_pem_certificates() {
            Ok(ders) => Ok(ders),
            Err(e) => Err(SigningError::CertificateChainInvalid(e)),
        }
    }
}

/// Whatever statuses come, an operation polls again at most until its
/// last allowed status: a status received there never leads to another
/// poll.
pub proof fn lemma_poll_ends(attempt: nat, status: Status)
    requires
        attempt + 1 >= MAX_ATTEMPTS,
    ensures
        poll_decision(attempt, status) != Decision::Again,
{
}

/// Statuses that never end the operation lead to another poll on each of
/// the first attempts, and to `PollExhausted` on the last allowed one.
pub proof fn lemma_poll_exhausted(statuses: Seq<Status>)
    requires
        statuses.len() >= MAX_ATTEMPTS,
        forall|i: int| 0 <= i < statuses.len() ==> still_running(#[trigger] statuses[i]),
    ensures
        forall|k: nat| k + 1 < MAX_ATTEMPTS ==> poll_decision(k, #[trigger] statuses[k as int])
            == Decision::Again,
        poll_decision((MAX_ATTEMPTS - 1) as nat, statuses[MAX_ATTEMPTS - 1]) == Decision::Exhausted,
{
    assert(still_running(statuses[MAX_ATTEMPTS - 1]));
}

} // verus!
