//! The signer that the manifest-embedding library is handed: it turns the
//! bytes to sign into a digest for the signing service, and answers with the
//! algorithm, the certificate chain, the room to keep for the signature and
//! the timestamp authority.
use azure_core::http::Url;
use vstd::prelude::*;

use crate::algorithm::SigningAlg;
use crate::client::{
    RetryPolicy, SigningError, TrustedSigningClient, TrustedSigningClientOptions,
    DEFAULT_API_VERSION, DEFAULT_SCOPE, MAX_RETRIES, MAX_RETRY_DELAY_SECONDS,
};
use crate::encoding::{sha384, sha384_of, SHA384_LEN};

verus! {

/// The timestamp authority that signatures are stamped by.
pub const TIME_AUTHORITY_URL: &'static str = "http://timestamp.acs.microsoft.com";

/// The room, in bytes, that the embedding library keeps for the signature.
pub const RESERVE_SIZE: usize = 20000;

/// The address that `text` parses to; none where it is not an address.
pub uninterp spec fn parsed_url(text: Seq<char>) -> Option<Url>;

/// The serialization of an address.
pub uninterp spec fn url_serialization(url: Url) -> Seq<char>;

/// Relies on `url::Url::parse`: none where `text` is not an address.
#[verifier::external_body]
fn parse_url(text: &str) -> (r: Option<Url>)
    ensures
        r == parsed_url(text@),
{
    Url::parse(text).ok()
}

/// Relies on `Display` for `url::Url`: its serialization.
#[verifier::external_body]
fn url_text(url: &Url) -> (r: String)
    ensures
        r@ == url_serialization(*url),
{
    url.to_string()
}

/// What a signer is configured with. It is not changed once made.
#[derive(Clone, Debug)]
pub struct SigningOptions {
    pub account: String,
    pub endpoint: Url,
    pub certificate_profile: String,
    pub time_authority_url: Option<Url>,
    pub algorithm: SigningAlg,
}

impl SigningOptions {
    /// Options for the account and certificate profile at `endpoint`, with
    /// RSASSA-PSS over SHA-384 and the default timestamp authority.
    pub fn new(endpoint: Url, account: String, certificate_profile: String) -> (r: Self)
        ensures
            r.endpoint == endpoint,
            r.account == account,
            r.certificate_profile == certificate_profile,
            r.algorithm == SigningAlg::Ps384,
            r.time_authority_url == parsed_url(TIME_AUTHORITY_URL@),
    {
        SigningOptions {
            account,
            endpoint,
            certificate_profile,
            time_authority_url: parse_url(TIME_AUTHORITY_URL),
            algorithm: SigningAlg::Ps384,
        }
    }

    /// The client of the signing service for these options.
    pub fn client(&self) -> (r: TrustedSigningClient)
        ensures
            r.endpoint == self.endpoint,
            r.options.account@ == self.account@,
            r.options.certificate_profile@ == self.certificate_profile@,
            r.options.api_version@ == DEFAULT_API_VERSION@,
            r.options.scope@ == DEFAULT_SCOPE@,
            r.options.retry == (RetryPolicy {
                max_retries: MAX_RETRIES,
                max_delay_seconds: MAX_RETRY_DELAY_SECONDS,
            }),
    {
        let options = TrustedSigningClientOptions::new(
            self.account.as_str(),
            self.certificate_profile.as_str(),
        );
        TrustedSigningClient::new(self.endpoint.clone(), options)
    }
}

/// A signer backed by the remote signing service. The certificate chain is
/// fetched once, before the signer is made, and kept for its lifetime.
#[derive(Clone, Debug)]
pub struct TrustedSigner {
    pub options: SigningOptions,
    pub client: TrustedSigningClient,
    pub manifest_definition: String,
    pub certificates: Vec<Vec<u8>>,
}

impl TrustedSigner {
    /// A signer with `options`, the manifest definition to embed, and the
    /// certificate chain that the service returned for the profile.
    pub fn new(
        options: SigningOptions,
        manifest_definition: String,
        certificates: Vec<Vec<u8>>,
    ) -> (r: Self)
        ensures
            r.options == options,
            r.client.endpoint == options.endpoint,
            r.client.options.account@ == options.account@,
            r.client.options.certificate_profile@ == options.certificate_profile@,
            r.manifest_definition == manifest_definition,
            r.certificates == certificates,
    {
        let client = options.client();
        TrustedSigner { options, client, manifest_definition, certificates }
    }

    /// The digest of `data` that the service signs: SHA-384 for
    /// RSASSA-PSS over SHA-384; no other algorithm is supported.
    pub fn get_digest(&self, data: &[u8]) -> (r: Result<Vec<u8>, SigningError>)
        ensures
            self.options.algorithm == SigningAlg::Ps384 ==> (r matches Ok(d) && d@ == sha384_of(
                data@,
            ) && d@.len() == SHA384_LEN),
            self.options.algorithm != SigningAlg::Ps384 ==> r == Err::<Vec<u8>, SigningError>(
                SigningError::UnsupportedAlgorithm,
            ),
    {
        if self.options.algorithm == SigningAlg::Ps384 {
            Ok(sha384(data))
        } else {
            Err(SigningError::UnsupportedAlgorithm)
        }
    }

    /// The configured algorithm.
    pub fn alg(&self) -> (r: SigningAlg)
        ensures
            r == self.options.algorithm,
    {
        self.options.algorithm
    }

    /// The certificate chain, leaf first, as DER encodings.
    pub fn certs(&self) -> (r: Vec<Vec<u8>>)
        ensures
            r.deep_view() == self.certificates.deep_view(),
    {
        let mut out: Vec<Vec<u8>> = Vec::new();
        let mut i: usize = 0;
        while i < self.certificates.len()
            invariant
                i <= self.certificates.len(),
                out.len() == i,
                forall|k: int| 0 <= k < i ==> #[trigger] out@[k]@ == self.certificates@[k]@,
            decreases self.certificates.len() - i,
        {
            out.push(self.certificates[i].clone());
            i = i + 1;
        }
        proof {
            assert(out.deep_view() =~= self.certificates.deep_view());
        }
        out
    }

    /// The room to keep for the signature.
    pub fn reserve_size(&self) -> (r: usize)
        ensures
            r == RESERVE_SIZE,
    {
        RESERVE_SIZE
    }

    /// The address of the timestamp authority, if one is configured.
    pub fn time_authority_url(&self) -> (r: Option<String>)
        ensures
            match self.options.time_authority_url {
                Some(url) => r matches Some(text) && text@ == url_serialization(url),
                None => r is None,
            },
    {
        match &self.options.time_authority_url {
            Some(url) => Some(url_text(url)),
            None => None,
        }
    }
}

} // verus!
