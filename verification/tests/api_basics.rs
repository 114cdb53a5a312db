use openhicos::api::pad;
use openhicos::api::{hipki_cert_label, SignMechanism, SignRequest};

#[test]
fn hipki_labels() {
    assert_eq!(hipki_cert_label(b"SIGN"), "cert1");
    assert_eq!(hipki_cert_label(b"KEYX"), "cert2");
    assert_eq!(hipki_cert_label(b"SIGN02"), "cert3");
}

#[test]
fn sign_request_debug_redacts_pin() {
    let req = SignRequest {
        slot_id: None,
        pin: "secret-pin",
        key_id: None,
        mechanism: SignMechanism::Sha256RsaPkcs,
        data: b"hello",
        return_certificate: false,
    };
    let s = req.debug_text();
    assert!(s.contains("<redacted>"));
    assert!(!s.contains("secret-pin"));
}

#[test]
fn digestinfo_sha256_prefix() {
    let dig = pad::digestinfo_sha256(&[0u8; 32]);
    assert_eq!(dig.len(), 51);
    assert_eq!(&dig[..19], &pad::DIGESTINFO_SHA256_PREFIX);
}
