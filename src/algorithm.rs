//! The signature algorithms that a signer can be configured with.
use vstd::prelude::*;

verus! {

/// A signature algorithm, as the manifest-embedding library names them.
#[derive(Clone, Copy, Debug, PartialEq, Eq, Structural)]
pub enum SigningAlg {
    /// ECDSA with SHA-256.
    Es256,
    /// ECDSA with SHA-384.
    Es384,
    /// ECDSA with SHA-512.
    Es512,
    /// RSASSA-PSS with SHA-256.
    Ps256,
    /// RSASSA-PSS with SHA-384.
    Ps384,
    /// RSASSA-PSS with SHA-512.
    Ps512,
    /// Edwards-curve DSA, Ed25519 only.
    Ed25519,
}

/// The name of an algorithm on the wire.
pub open spec fn alg_name(alg: SigningAlg) -> Seq<char> {
    match alg {
        SigningAlg::Es256 => "es256"@,
        SigningAlg::Es384 => "es384"@,
        SigningAlg::Es512 => "es512"@,
        SigningAlg::Ps256 => "ps256"@,
        SigningAlg::Ps384 => "ps384"@,
        SigningAlg::Ps512 => "ps512"@,
        SigningAlg::Ed25519 => "ed25519"@,
    }
}

impl SigningAlg {
    /// The name of the algorithm on the wire.
    pub fn name(&self) -> (r: String)
        ensures
            r@ == alg_name(*self),
    {
        match self {
            SigningAlg::Es256 => String::from_str("es256"),
            SigningAlg::Es384 => String::from_str("es384"),
            SigningAlg::Es512 => String::from_str("es512"),
            SigningAlg::Ps256 => String::from_str("ps256"),
            SigningAlg::Ps384 => String::from_str("ps384"),
            SigningAlg::Ps512 => String::from_str("ps512"),
            SigningAlg::Ed25519 => String::from_str("ed25519"),
        }
    }
}

} // verus!
