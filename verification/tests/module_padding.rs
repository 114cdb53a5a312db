use openhicos::p15::TokenObject;
use openhicos::pkcs11::module::{
    attr_match, emsa_pkcs1_v15, oaep_decode, oaep_encode, pkcs1_v15_encrypt_block, set_slot_sessions_login_state,
    Session,
};
use openhicos::pkcs11::types::{
    CKA_VALUE, CKF_RW_SESSION, CKF_SERIAL_SESSION, CKM_SHA256, CKS_RO_PUBLIC_SESSION, CKS_RO_USER_FUNCTIONS,
    CKS_RW_PUBLIC_SESSION, CKS_RW_USER_FUNCTIONS, CK_ATTRIBUTE, CK_ULONG,
};

#[test]
fn emsa_pkcs1_v15_has_type1_padding() {
    let encoded = emsa_pkcs1_v15(b"abc", 16).unwrap();
    assert_eq!(&encoded[..2], &[0x00, 0x01]);
    assert!(encoded[2..12].iter().all(|&b| b == 0xFF));
    assert_eq!(&encoded[12..], &[0x00, b'a', b'b', b'c']);
}

#[test]
fn oaep_sha256_roundtrip() {
    let msg = b"openhicos-oaep";
    let em = oaep_encode(CKM_SHA256, b"", 256, msg).unwrap();
    assert_eq!(em.len(), 256);
    assert_eq!(em[0], 0x00);
    assert_eq!(oaep_decode(CKM_SHA256, b"", &em).unwrap(), msg);
}

#[test]
fn pkcs1_v15_encrypt_block_layout() {
    let msg = b"hello";
    let em = pkcs1_v15_encrypt_block(256, msg).unwrap();
    assert_eq!(em.len(), 256);
    assert_eq!(em[0], 0x00);
    assert_eq!(em[1], 0x02);
    assert_eq!(&em[em.len() - msg.len()..], msg);
    assert_eq!(em[em.len() - msg.len() - 1], 0x00);
    assert!(em[2..em.len() - msg.len() - 1].iter().all(|&b| b != 0));
}

#[test]
fn login_state_is_shared_by_all_sessions_on_a_slot() {
    let mut sessions: [Session; 3] = std::array::from_fn(|_| Session::default());
    sessions[0] = Session {
        in_use: true,
        slot: 0,
        flags: CKF_SERIAL_SESSION,
        ..Default::default()
    };
    sessions[1] = Session {
        in_use: true,
        slot: 0,
        flags: CKF_SERIAL_SESSION | CKF_RW_SESSION,
        ..Default::default()
    };
    sessions[2] = Session {
        in_use: true,
        slot: 1,
        flags: CKF_SERIAL_SESSION,
        ..Default::default()
    };

    set_slot_sessions_login_state(&mut sessions, 0, true);

    assert!(sessions[0].logged_in);
    assert_eq!(sessions[0].state, CKS_RO_USER_FUNCTIONS);
    assert!(sessions[1].logged_in);
    assert_eq!(sessions[1].state, CKS_RW_USER_FUNCTIONS);
    assert!(!sessions[2].logged_in);
    assert_eq!(sessions[2].state, CKS_RO_PUBLIC_SESSION);

    set_slot_sessions_login_state(&mut sessions, 0, false);

    assert!(!sessions[0].logged_in);
    assert_eq!(sessions[0].state, CKS_RO_PUBLIC_SESSION);
    assert!(!sessions[1].logged_in);
    assert_eq!(sessions[1].state, CKS_RW_PUBLIC_SESSION);
}

#[test]
fn find_template_matches_certificate_value_exactly() {
    let object = TokenObject {
        data: vec![0x30, 0x03, 0x01, 0x02, 0x03],
        ..Default::default()
    };
    let matching_value: Vec<u8> = vec![0x30, 0x03, 0x01, 0x02, 0x03];
    let matching_len = matching_value.len() as CK_ULONG;
    let matching_template = CK_ATTRIBUTE {
        type_: CKA_VALUE,
        pValue: Some(matching_value),
        ulValueLen: matching_len,
    };
    assert!(attr_match(&object, &[matching_template]));

    let different_value: Vec<u8> = vec![0x30, 0x03, 0x01, 0x02, 0x04];
    let different_len = different_value.len() as CK_ULONG;
    let different_template = CK_ATTRIBUTE {
        type_: CKA_VALUE,
        pValue: Some(different_value),
        ulValueLen: different_len,
    };
    assert!(!attr_match(&object, &[different_template]));
}
