//! Signing content-provenance manifests with a remote signing service.
//!
//! - [`chain`] orders an unordered set of certificates into a chain, leaf
//!   first, and states what that order is.
//! - [`pkcs7`] reads the certificate bundle that the service returns.
//! - [`client`] holds the signing protocol: where requests go, what they
//!   carry, and what to do on each status of a signing operation.
//! - [`signer`] is what the manifest-embedding library is handed.
//! - [`auth`] and [`identity`] cover the access tokens that requests carry.
//! - [`algorithm`] and [`encoding`] hold the algorithms, encodings and
//!   digest that the protocol uses.
pub mod algorithm;
pub mod auth;
pub mod chain;
pub mod client;
pub mod encoding;
pub mod identity;
pub mod pkcs7;
pub mod signer;
