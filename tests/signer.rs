use azure_core::http::Url;
use c2pa_acs::algorithm::SigningAlg;
use c2pa_acs::client::SigningError;
use c2pa_acs::signer::{SigningOptions, TrustedSigner};

fn options() -> SigningOptions {
    SigningOptions::new(
        Url::parse("https://eus.codesigning.azure.net").unwrap(),
        "acct".to_string(),
        "profile".to_string(),
    )
}

fn signer(options: SigningOptions) -> TrustedSigner {
    TrustedSigner::new(
        options,
        "{}".to_string(),
        vec![b"leaf".to_vec(), b"root".to_vec()],
    )
}

#[test]
fn options_default_to_ps384() {
    let o = options();
    assert_eq!(o.algorithm, SigningAlg::Ps384);
    assert_eq!(o.account, "acct");
    assert_eq!(o.certificate_profile, "profile");
}

#[test]
fn signer_answers() {
    let s = signer(options());
    assert_eq!(s.alg(), SigningAlg::Ps384);
    assert_eq!(s.certs(), vec![b"leaf".to_vec(), b"root".to_vec()]);
    assert_eq!(s.reserve_size(), 20000);
    assert_eq!(
        s.time_authority_url(),
        Some("http://timestamp.acs.microsoft.com/".to_string())
    );
    assert_eq!(s.client.options.account, "acct");
    assert_eq!(s.client.endpoint.as_str(), "https://eus.codesigning.azure.net/");
}

#[test]
fn no_timestamp_authority() {
    let mut o = options();
    o.time_authority_url = None;
    assert_eq!(signer(o).time_authority_url(), None);
}

#[test]
fn sha384_digest_for_ps384() {
    let s = signer(options());
    let digest = s.get_digest(b"data").unwrap();
    let hex: String = digest.iter().map(|b| format!("{b:02x}")).collect();
    assert_eq!(
        hex,
        "2039e0f0b92728499fb88e23ebc3cfd0554b28400b0ed7b753055c88b5865c3c2aa72c6a1a9ae0a755d87900a4a6ff41"
    );
    assert_eq!(digest.len(), 48);
}

#[test]
fn unsupported_algorithm_fails_before_any_call() {
    let mut o = options();
    o.algorithm = SigningAlg::Es256;
    let s = signer(o);
    assert_eq!(s.alg(), SigningAlg::Es256);
    assert_eq!(s.get_digest(b"data"), Err(SigningError::UnsupportedAlgorithm));
}
