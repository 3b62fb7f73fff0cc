use azure_core::http::Url;
use c2pa_acs::algorithm::SigningAlg;
use c2pa_acs::chain::ChainError;
use c2pa_acs::client::{
    PollStep, RetryPolicy, SignOperation, SigningError, SigningRequest, SigningStatus, Status,
    TrustedSigningClient, TrustedSigningClientOptions, MAX_ATTEMPTS,
};

fn client() -> TrustedSigningClient {
    TrustedSigningClient::new(
        Url::parse("https://eus.codesigning.azure.net").unwrap(),
        TrustedSigningClientOptions::new("acct", "profile"),
    )
}

fn status(id: &str, status: Status, signature: Option<&str>) -> SigningStatus {
    SigningStatus {
        operation_id: id.to_string(),
        status,
        signature: signature.map(|s| s.to_string()),
        signing_certificate: None,
    }
}

/// Runs one signing operation against a list of answers, as a caller that
/// sends the requests would: one submission, then one poll per `Poll`.
/// Returns the outcome and the requests made, as (method, path).
fn run(
    client: &TrustedSigningClient,
    answers: &[SigningStatus],
) -> (Result<Vec<u8>, SigningError>, Vec<(&'static str, String)>) {
    let mut calls = vec![("POST", client.sign_path())];
    let mut op = SignOperation::new();
    let mut next = 0;
    loop {
        let answer = answers[next].clone();
        next += 1;
        match op.on_status(answer) {
            Ok(PollStep::Done(sig)) => return (Ok(sig), calls),
            Ok(PollStep::Poll(id)) => calls.push(("GET", client.operation_path(&id))),
            Err(e) => return (Err(e), calls),
        }
    }
}

#[test]
fn options_defaults() {
    let options = TrustedSigningClientOptions::new("acct", "profile");
    assert_eq!(options.api_version, "2022-06-15-preview");
    assert_eq!(options.account, "acct");
    assert_eq!(options.certificate_profile, "profile");
    assert_eq!(options.scope, "https://codesigning.azure.net/.default");
    assert_eq!(
        options.retry,
        RetryPolicy {
            max_retries: 5,
            max_delay_seconds: 10
        }
    );
}

#[test]
fn request_paths() {
    let c = client();
    assert_eq!(
        c.sign_path(),
        "/codesigningaccounts/acct/certificateprofiles/profile/sign?api-version=2022-06-15-preview"
    );
    assert_eq!(
        c.certificate_chain_path(),
        "/codesigningaccounts/acct/certificateprofiles/profile/sign/certchain?api-version=2022-06-15-preview"
    );
    assert_eq!(
        c.operation_path("op-1"),
        "/codesigningaccounts/acct/certificateprofiles/profile/sign/op-1?api-version=2022-06-15-preview"
    );
}

#[test]
fn url_on_endpoint() {
    let c = client();
    let url = c.url_for(&c.sign_path()).unwrap();
    assert_eq!(
        url.as_str(),
        "https://eus.codesigning.azure.net/codesigningaccounts/acct/certificateprofiles/profile/sign?api-version=2022-06-15-preview"
    );
}

#[test]
fn signing_request_body() {
    let digest = [0u8, 1, 2, 255];
    let request = SigningRequest::new(SigningAlg::Ps384, &digest);
    assert_eq!(request.signature_algorithm, "ps384");
    assert_eq!(request.digest, "AAEC/w==");
    let other = SigningRequest::new(SigningAlg::Es256, b"abc");
    assert_eq!(other.signature_algorithm, "es256");
    assert_eq!(other.digest, "YWJj");
}

#[test]
fn sign_request_uses_ps384() {
    let digest = [7u8; 48];
    let request = client().sign_request(&digest);
    assert_eq!(request.signature_algorithm, "ps384");
    assert_eq!(request.digest.len(), 64);
}

#[test]
fn in_progress_then_succeeded_takes_two_calls() {
    let c = client();
    let answers = [
        status("op-1", Status::InProgress, None),
        status("op-1", Status::Succeeded, Some("AQID")),
    ];
    let (outcome, calls) = run(&c, &answers);
    assert_eq!(outcome, Ok(vec![1, 2, 3]));
    assert_eq!(calls.len(), 2);
    assert_eq!(calls[0], ("POST", c.sign_path()));
    assert_eq!(calls[1], ("GET", c.operation_path("op-1")));
}

#[test]
fn never_ending_operation_is_exhausted_after_five() {
    let c = client();
    let answers: Vec<SigningStatus> = (0..10)
        .map(|i| {
            let s = if i % 2 == 0 { Status::InProgress } else { Status::Running };
            status("op-2", s, None)
        })
        .collect();
    let (outcome, calls) = run(&c, &answers);
    assert_eq!(outcome, Err(SigningError::PollExhausted));
    assert_eq!(calls.len(), MAX_ATTEMPTS as usize);
}

#[test]
fn terminal_statuses_are_rejected_at_once() {
    for s in [Status::Failed, Status::TimedOut, Status::NotFound] {
        let mut op = SignOperation::new();
        let r = op.on_status(status("op-3", s, None));
        assert!(matches!(r, Err(SigningError::ServiceRejected(x)) if x == s));
        assert_eq!(op.attempts, 1);
    }
}

#[test]
fn success_without_signature_is_invalid() {
    let mut op = SignOperation::new();
    let r = op.on_status(status("op-4", Status::Succeeded, None));
    assert!(matches!(r, Err(SigningError::InvalidSignature)));
    let mut op = SignOperation::new();
    let r = op.on_status(status("op-4", Status::Succeeded, Some("!!not base64!!")));
    assert!(matches!(r, Err(SigningError::InvalidSignature)));
}

#[test]
fn poll_carries_operation_id() {
    let mut op = SignOperation::new();
    let r = op.on_status(status("op-5", Status::Running, None));
    assert!(matches!(r, Ok(PollStep::Poll(ref id)) if id == "op-5"));
    assert_eq!(op.attempts, 1);
}

#[test]
fn same_digest_twice_is_two_operations() {
    let c = client();
    let digest = [9u8; 48];
    let first = c.sign_request(&digest);
    let second = c.sign_request(&digest);
    assert_eq!(first.digest, second.digest);
    assert_eq!(first.signature_algorithm, second.signature_algorithm);
    let answers = [
        status("op-a", Status::InProgress, None),
        status("op-a", Status::Succeeded, Some("AQID")),
    ];
    let (one, calls_one) = run(&c, &answers);
    let (two, calls_two) = run(&c, &answers);
    assert_eq!(one, two);
    assert_eq!(calls_one, calls_two);
}

#[test]
fn certificates_from_unreadable_body() {
    let r = TrustedSigningClient::certificates_from_body(b"xyz".to_vec());
    assert_eq!(
        r,
        Err(SigningError::CertificateChainInvalid(ChainError::InvalidCertificate))
    );
}

#[test]
fn encoded_digest_reads_back() {
    let request = SigningRequest::new(SigningAlg::Ps384, &[1, 2, 3, 250]);
    let mut op = SignOperation::new();
    let r = op.on_status(status("op-6", Status::Succeeded, Some(&request.digest)));
    assert!(matches!(r, Ok(PollStep::Done(ref sig)) if sig == &vec![1, 2, 3, 250]));
}
