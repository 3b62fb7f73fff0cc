use std::str::FromStr;

use c2pa_acs::chain::{sort_certificates, CertificateInfo, ChainError};
use c2pa_acs::pkcs7::CertificateChain;
use cms::cert::x509::certificate::{TbsCertificate, Version};
use cms::cert::x509::der::asn1::{Any, BitString, SetOfVec};
use cms::cert::x509::der::oid::ObjectIdentifier;
use cms::cert::x509::der::Encode;
use cms::cert::x509::name::Name;
use cms::cert::x509::serial_number::SerialNumber;
use cms::cert::x509::spki::{AlgorithmIdentifierOwned, SubjectPublicKeyInfoOwned};
use cms::cert::x509::time::{Time, Validity};
use cms::cert::x509::Certificate;
use cms::cert::{CertificateChoices, OtherCertificateFormat};
use cms::content_info::{CmsVersion, ContentInfo};
use cms::signed_data::{CertificateSet, EncapsulatedContentInfo, SignedData, SignerInfos};

fn info(subject: &str, issuer: &str, der: &[u8]) -> CertificateInfo {
    CertificateInfo {
        subject: subject.to_string(),
        issuer: issuer.to_string(),
        der: der.to_vec(),
    }
}

fn rsa_pss() -> AlgorithmIdentifierOwned {
    AlgorithmIdentifierOwned {
        oid: ObjectIdentifier::new_unwrap("1.2.840.113549.1.1.10"),
        parameters: None,
    }
}

fn certificate(subject: &str, issuer: &str, serial: u8) -> Certificate {
    Certificate {
        tbs_certificate: TbsCertificate {
            version: Version::V3,
            serial_number: SerialNumber::new(&[serial]).unwrap(),
            signature: rsa_pss(),
            issuer: Name::from_str(issuer).unwrap(),
            validity: Validity {
                not_before: Time::INFINITY,
                not_after: Time::INFINITY,
            },
            subject: Name::from_str(subject).unwrap(),
            subject_public_key_info: SubjectPublicKeyInfoOwned {
                algorithm: rsa_pss(),
                subject_public_key: BitString::from_bytes(&[1, 2, 3]).unwrap(),
            },
            issuer_unique_id: None,
            subject_unique_id: None,
            extensions: None,
        },
        signature_algorithm: rsa_pss(),
        signature: BitString::from_bytes(&[4, 5, 6]).unwrap(),
    }
}

fn bundle(certs: Option<Vec<Certificate>>) -> Vec<u8> {
    bundle_of(certs.map(|certs| certs.into_iter().map(CertificateChoices::Certificate).collect()))
}

fn bundle_of(choices: Option<Vec<CertificateChoices>>) -> Vec<u8> {
    let certificates = choices.map(|choices| CertificateSet(SetOfVec::try_from(choices).unwrap()));
    let data = SignedData {
        version: CmsVersion::V1,
        digest_algorithms: SetOfVec::new(),
        encap_content_info: EncapsulatedContentInfo {
            econtent_type: ObjectIdentifier::new_unwrap("1.2.840.113549.1.7.1"),
            econtent: None,
        },
        certificates,
        crls: None,
        signer_infos: SignerInfos(SetOfVec::new()),
    };
    let info = ContentInfo {
        content_type: ObjectIdentifier::new_unwrap("1.2.840.113549.1.7.2"),
        content: Any::encode_from(&data).unwrap(),
    };
    info.to_der().unwrap()
}

#[test]
fn three_certificates_ordered_leaf_first() {
    let certs = vec![
        info("Int", "CA", b"int"),
        info("CA", "CA", b"root"),
        info("Leaf", "Int", b"leaf"),
    ];
    let chain = sort_certificates(&certs).unwrap();
    assert_eq!(chain, vec![b"leaf".to_vec(), b"int".to_vec(), b"root".to_vec()]);
}

#[test]
fn chain_of_four_in_any_order() {
    let certs = vec![
        info("B", "A", b"b"),
        info("D", "C", b"d"),
        info("A", "A", b"a"),
        info("C", "B", b"c"),
    ];
    let chain = sort_certificates(&certs).unwrap();
    assert_eq!(chain.len(), certs.len());
    assert_eq!(chain, vec![b"d".to_vec(), b"c".to_vec(), b"b".to_vec(), b"a".to_vec()]);
}

#[test]
fn single_certificate_is_its_own_chain() {
    let certs = vec![info("Leaf", "Somebody", b"only")];
    assert_eq!(sort_certificates(&certs), Ok(vec![b"only".to_vec()]));
    let root = vec![info("CA", "CA", b"root")];
    assert_eq!(sort_certificates(&root), Ok(vec![b"root".to_vec()]));
}

#[test]
fn empty_set_is_missing() {
    assert_eq!(sort_certificates(&Vec::new()), Err(ChainError::Missing));
}

#[test]
fn missing_link_is_invalid() {
    let certs = vec![
        info("CA", "CA", b"root"),
        info("Leaf", "Int", b"leaf"),
    ];
    assert_eq!(sort_certificates(&certs), Err(ChainError::InvalidCertificate));
}

#[test]
fn chain_without_root_starts_at_its_top() {
    let certs = vec![
        info("Leaf", "Int", b"leaf"),
        info("Int", "Outside", b"int"),
    ];
    assert_eq!(
        sort_certificates(&certs),
        Ok(vec![b"leaf".to_vec(), b"int".to_vec()])
    );
}

#[test]
fn cycle_without_top_is_invalid() {
    let certs = vec![info("A", "B", b"a"), info("B", "A", b"b")];
    assert_eq!(sort_certificates(&certs), Err(ChainError::InvalidCertificate));
}

#[test]
fn shared_issuer_branch_is_invalid() {
    let certs = vec![
        info("CA", "CA", b"root"),
        info("First", "CA", b"first"),
        info("Second", "CA", b"second"),
    ];
    // Only the later of two certificates of one issuer is followed.
    assert_eq!(sort_certificates(&certs), Err(ChainError::InvalidCertificate));
    let two = vec![
        info("CA", "CA", b"root"),
        info("First", "CA", b"first"),
        info("Second", "CA", b"second"),
        info("Leaf", "Second", b"leaf"),
    ];
    assert_eq!(sort_certificates(&two), Err(ChainError::InvalidCertificate));
}

#[test]
fn bundle_of_three_normalizes_to_leaf_int_ca() {
    let root = certificate("CN=CA", "CN=CA", 1);
    let int = certificate("CN=Int", "CN=CA", 2);
    let leaf = certificate("CN=Leaf", "CN=Int", 3);
    let expected = vec![
        leaf.to_der().unwrap(),
        int.to_der().unwrap(),
        root.to_der().unwrap(),
    ];
    let chain = CertificateChain::from_cert_chain(bundle(Some(vec![int, root, leaf])));
    assert_eq!(chain.get_pem_certificates(), Ok(expected));
}

#[test]
fn bundle_with_one_certificate() {
    let leaf = certificate("CN=Leaf", "CN=Int", 3);
    let expected = vec![leaf.to_der().unwrap()];
    let chain = CertificateChain::from_cert_chain(bundle(Some(vec![leaf])));
    assert_eq!(chain.get_pem_certificates(), Ok(expected));
}

#[test]
fn bundle_without_certificate_set_is_missing() {
    let chain = CertificateChain::from_cert_chain(bundle(None));
    assert_eq!(chain.get_pem_certificates(), Err(ChainError::Missing));
}

#[test]
fn bundle_with_empty_certificate_set_is_missing() {
    let chain = CertificateChain::from_cert_chain(bundle(Some(Vec::new())));
    assert_eq!(chain.get_pem_certificates(), Err(ChainError::Missing));
}

#[test]
fn bundle_with_missing_link_is_invalid() {
    let root = certificate("CN=CA", "CN=CA", 1);
    let leaf = certificate("CN=Leaf", "CN=Int", 3);
    let chain = CertificateChain::from_cert_chain(bundle(Some(vec![root, leaf])));
    assert_eq!(chain.get_pem_certificates(), Err(ChainError::InvalidCertificate));
}

#[test]
fn unreadable_bundle_is_invalid() {
    let chain = CertificateChain::from_cert_chain(b"not a bundle".to_vec());
    assert_eq!(chain.get_pem_certificates(), Err(ChainError::InvalidCertificate));
    let empty = CertificateChain::from_cert_chain(Vec::new());
    assert_eq!(empty.get_pem_certificates(), Err(ChainError::InvalidCertificate));
}

#[test]
fn bundle_entries_of_other_kinds_are_skipped() {
    let root = certificate("CN=CA", "CN=CA", 1);
    let leaf = certificate("CN=Leaf", "CN=CA", 2);
    let expected = vec![leaf.to_der().unwrap(), root.to_der().unwrap()];
    let other = CertificateChoices::Other(OtherCertificateFormat {
        other_cert_format: ObjectIdentifier::new_unwrap("1.2.3.4"),
        other_cert: Any::encode_from(&ObjectIdentifier::new_unwrap("1.2.3.5")).unwrap(),
    });
    let choices = vec![
        CertificateChoices::Certificate(root),
        other,
        CertificateChoices::Certificate(leaf),
    ];
    let chain = CertificateChain::from_cert_chain(bundle_of(Some(choices)));
    assert_eq!(chain.get_pem_certificates(), Ok(expected));
}

#[test]
fn bundle_with_only_other_entries_is_missing() {
    let other = CertificateChoices::Other(OtherCertificateFormat {
        other_cert_format: ObjectIdentifier::new_unwrap("1.2.3.4"),
        other_cert: Any::encode_from(&ObjectIdentifier::new_unwrap("1.2.3.5")).unwrap(),
    });
    let chain = CertificateChain::from_cert_chain(bundle_of(Some(vec![other])));
    assert_eq!(chain.get_pem_certificates(), Err(ChainError::Missing));
}
