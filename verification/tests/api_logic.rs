use openhicos::api::{
    encode_upper_simple, find_cert_der, find_private_key, hipki_cert_label, id_to_string, list_certificates,
    list_tokens, open_slot, prepare_sign_payload, slot_candidates, DecryptPadding, DecryptRequest, Error, OaepHash,
    SignMechanism, SignRequest,
};
use openhicos::p15::{ObjClass, Token, TokenObject};

fn token_with_objects() -> Token {
    let mut token = Token::default();
    token.objs.push(TokenObject {
        cls: ObjClass::Cert,
        id: b"SIGN".to_vec(),
        data: vec![0x30, 0x01, 0x00],
        ..Default::default()
    });
    token.objs.push(TokenObject {
        cls: ObjClass::Cert,
        id: b"KEYX".to_vec(),
        ..Default::default()
    });
    token.objs.push(TokenObject {
        cls: ObjClass::Cert,
        id: b"KEYX".to_vec(),
        data: vec![0x30, 0x02, 0x05, 0x00],
        ..Default::default()
    });
    token.objs.push(TokenObject {
        cls: ObjClass::PrivKey,
        id: b"SIGN".to_vec(),
        key_ref: 1,
        can_sign: true,
        ..Default::default()
    });
    token.objs.push(TokenObject {
        cls: ObjClass::PrivKey,
        id: b"KEYX".to_vec(),
        key_ref: 2,
        can_decrypt: true,
        ..Default::default()
    });
    token
}

#[test]
fn hex_text_is_upper_case_two_digits_per_byte() {
    assert_eq!(encode_upper_simple(&[0x00, 0xAB, 0x1F]), "00AB1F");
    assert_eq!(encode_upper_simple(&[]), "");
}

#[test]
fn key_identifiers_read_as_utf8_or_hex() {
    assert_eq!(id_to_string(b"SIGN"), "SIGN");
    assert_eq!(id_to_string(&[0xFF, 0x01]), "FF01");
    assert_eq!(id_to_string(&[]), "");
    assert_eq!(hipki_cert_label(b"OTHER"), "OTHER");
    assert_eq!(hipki_cert_label(&[0xC3]), "C3");
}

#[test]
fn sign_payload_wraps_each_digest() {
    let raw = prepare_sign_payload(SignMechanism::RsaPkcs, b"abc").unwrap();
    assert_eq!(raw, b"abc");

    let md5 = prepare_sign_payload(SignMechanism::Md5RsaPkcs, b"abc").unwrap();
    assert_eq!(md5.len(), 34);
    assert_eq!(
        &md5[18..],
        &[0x90, 0x01, 0x50, 0x98, 0x3c, 0xd2, 0x4f, 0xb0, 0xd6, 0x96, 0x3f, 0x7d, 0x28, 0xe1, 0x7f, 0x72]
    );

    let sha1 = prepare_sign_payload(SignMechanism::Sha1RsaPkcs, b"abc").unwrap();
    assert_eq!(sha1.len(), 35);
    assert_eq!(
        &sha1[15..],
        &[
            0xa9, 0x99, 0x3e, 0x36, 0x47, 0x06, 0x81, 0x6a, 0xba, 0x3e, 0x25, 0x71, 0x78, 0x50, 0xc2, 0x6c, 0x9c,
            0xd0, 0xd8, 0x9d
        ]
    );

    let sha256 = prepare_sign_payload(SignMechanism::Sha256RsaPkcs, b"abc").unwrap();
    assert_eq!(sha256.len(), 51);
    assert_eq!(
        &sha256[19..],
        &[
            0xba, 0x78, 0x16, 0xbf, 0x8f, 0x01, 0xcf, 0xea, 0x41, 0x41, 0x40, 0xde, 0x5d, 0xae, 0x22, 0x23, 0xb0,
            0x03, 0x61, 0xa3, 0x96, 0x17, 0x7a, 0x9c, 0xb4, 0x10, 0xff, 0x61, 0xf2, 0x00, 0x15, 0xad
        ]
    );

    let sha384 = prepare_sign_payload(SignMechanism::Sha384RsaPkcs, b"abc").unwrap();
    assert_eq!(sha384.len(), 67);
    assert_eq!(&sha384[19..23], &[0xcb, 0x00, 0x75, 0x3f]);

    let sha512 = prepare_sign_payload(SignMechanism::Sha512RsaPkcs, b"abc").unwrap();
    assert_eq!(sha512.len(), 83);
    assert_eq!(&sha512[19..23], &[0xdd, 0xaf, 0x35, 0xa1]);
}

#[test]
fn slot_candidates_follow_the_request() {
    assert!(matches!(slot_candidates(None, 0), Err(Error::NoReader)));
    assert!(matches!(slot_candidates(Some(3), 2), Err(Error::InvalidSlot(3))));
    assert_eq!(slot_candidates(Some(1), 2).unwrap(), vec![1]);
    assert_eq!(slot_candidates(None, 3).unwrap(), vec![0, 1, 2]);
}

#[test]
fn open_slot_takes_the_first_card_read() {
    assert!(matches!(open_slot(vec![]), Err(Error::NoToken)));
    let (j, t) = open_slot(vec![Err(Error::TokenNotRecognized), Ok(token_with_objects())]).unwrap();
    assert_eq!(j, 1);
    assert_eq!(t.objs.len(), 5);
    assert!(matches!(open_slot(vec![Err(Error::PinLocked), Ok(Token::default())]), Err(Error::PinLocked)));
    match open_slot(vec![Err(Error::TokenNotRecognized), Err(Error::Pcsc("gone".to_string()))]) {
        Err(Error::Pcsc(m)) => assert_eq!(m, "gone"),
        _ => panic!("expected the last error"),
    }
}

#[test]
fn list_tokens_numbers_cards_by_reader() {
    assert!(matches!(list_tokens(&[], vec![]), Err(Error::NoReader)));
    let readers = vec!["reader 0".to_string(), "reader 1".to_string()];
    let infos = list_tokens(&readers, vec![Err(Error::TokenNotRecognized), Ok(Token::default())]).unwrap();
    assert_eq!(infos.len(), 1);
    assert_eq!(infos[0].slot_id, 1);
    assert_eq!(infos[0].reader, "reader 1");
    assert_eq!(infos[0].label, "HiCOS PKI Smart Card");
    assert_eq!(infos[0].model, "HiCOS");
    assert!(matches!(
        list_tokens(&readers, vec![Err(Error::Pcsc("x".to_string())), Err(Error::TokenNotRecognized)]),
        Err(Error::NoToken)
    ));
    assert!(matches!(
        list_tokens(&readers, vec![Err(Error::PinError), Ok(Token::default())]),
        Err(Error::PinError)
    ));
}

#[test]
fn certificates_and_keys_are_found_by_identifier() {
    let token = token_with_objects();
    assert_eq!(find_cert_der(&token, b"SIGN").unwrap(), vec![0x30, 0x01, 0x00]);
    assert_eq!(find_cert_der(&token, b"KEYX").unwrap(), vec![0x30, 0x02, 0x05, 0x00]);
    match find_cert_der(&token, b"SIGN02") {
        Err(Error::CertNotFound(id)) => assert_eq!(id, "SIGN02"),
        _ => panic!("expected CertNotFound"),
    }
    let certs = list_certificates(&token);
    assert_eq!(certs.len(), 2);
    assert_eq!(certs[0].label, "cert1");
    assert_eq!(certs[1].label, "cert2");
    assert_eq!(certs[1].der, vec![0x30, 0x02, 0x05, 0x00]);

    assert_eq!(find_private_key(&token, b"SIGN", true), Some(1));
    assert_eq!(find_private_key(&token, b"SIGN", false), None);
    assert_eq!(find_private_key(&token, b"KEYX", false), Some(2));
    assert_eq!(find_private_key(&token, b"KEYX", true), None);
}

#[test]
fn error_messages() {
    assert_eq!(Error::NoReader.message(), "no PC/SC reader found");
    assert_eq!(Error::InvalidSlot(7).message(), "slot 7 is invalid");
    assert_eq!(Error::KeyNotFound("SIGN".to_string()).message(), "private key not found (id=SIGN)");
    assert_eq!(Error::Pcsc("busy".to_string()).message(), "PC/SC error: busy");
}

#[test]
fn request_debug_texts_show_all_but_the_pin() {
    let key = b"SI";
    let req = SignRequest {
        slot_id: Some(2),
        pin: "123456",
        key_id: Some(key),
        mechanism: SignMechanism::RsaPkcs,
        data: b"hello",
        return_certificate: true,
    };
    assert_eq!(
        req.debug_text(),
        "SignRequest { slot_id: Some(2), pin: \"<redacted>\", key_id: Some([83, 73]), mechanism: RsaPkcs, data_len: 5, return_certificate: true }"
    );
    let dreq = DecryptRequest {
        slot_id: None,
        pin: "654321",
        key_id: None,
        padding: DecryptPadding::RsaOaep { hash: OaepHash::Sha1, label: vec![1] },
        ciphertext: &[0u8; 256],
        return_certificate: false,
    };
    let text = dreq.debug_text();
    assert_eq!(
        text,
        "DecryptRequest { slot_id: None, pin: \"<redacted>\", key_id: None, padding: RsaOaep { hash: Sha1, label: [1] }, ciphertext_len: 256, return_certificate: false }"
    );
    assert!(!text.contains("654321"));
}
