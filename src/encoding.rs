//! The encodings and the digest that the signing protocol uses, from the
//! outside crates that compute them.
use vstd::prelude::*;

verus! {

/// The standard, padded base64 text of `bytes`.
pub uninterp spec fn base64_text(bytes: Seq<u8>) -> Seq<char>;

/// The bytes that the standard base64 text `text` stands for; none where it
/// is not base64.
pub uninterp spec fn base64_bytes(text: Seq<char>) -> Option<Seq<u8>>;

/// The SHA-384 digest of `data`.
pub uninterp spec fn sha384_of(data: Seq<u8>) -> Seq<u8>;

/// The length of a SHA-384 digest, in bytes.
pub const SHA384_LEN: usize = 48;

/// Relies on `azure_core::base64::encode`: standard base64 with padding,
/// which `azure_core::base64::decode` reads back to `bytes`.
#[verifier::external_body]
pub(crate) fn encode_base64(bytes: &[u8]) -> (r: String)
    ensures
        r@ == base64_text(bytes@),
        base64_bytes(r@) == Some(bytes@),
{
    azure_core::base64::encode(bytes)
}

/// Relies on `azure_core::base64::decode`: standard base64, with or
/// without padding.
#[verifier::external_body]
pub(crate) fn decode_base64(text: &str) -> (r: Option<Vec<u8>>)
    ensures
        match base64_bytes(text@) {
            Some(b) => r matches Some(v) && v@ == b,
            None => r is None,
        },
{
    azure_core::base64::decode(text).ok()
}

/// Relies on `chksum_hash_sha2_384::hash`: the 48-byte SHA-384 digest.
#[verifier::external_body]
pub(crate) fn sha384(data: &[u8]) -> (r: Vec<u8>)
    ensures
        r@ == sha384_of(data@),
        r@.len() == SHA384_LEN,
{
    chksum_hash_sha2_384::hash(data).into_inner().to_vec()
}

} // verus!
