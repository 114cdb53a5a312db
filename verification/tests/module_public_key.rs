use openhicos::apdu::{CardProfile, CardState};
use openhicos::p15::{ObjClass, Token, TokenObject};
use openhicos::pkcs11::module::{
    c_encrypt, c_encrypt_final, c_encrypt_init, c_encrypt_update, c_initialize, c_open_session, c_verify,
    c_verify_final, c_verify_init, c_verify_update, card_connected, parse_oaep_params, store_binding, State,
};
use openhicos::pkcs11::types::{
    CKF_SERIAL_SESSION, CKG_MGF1_SHA1, CKG_MGF1_SHA256, CKM_RSA_PKCS, CKM_RSA_PKCS_OAEP, CKM_RSA_X_509, CKM_SHA256,
    CKM_SHA256_RSA_PKCS, CKM_SHA_1, CKR_ARGUMENTS_BAD, CKR_BUFFER_TOO_SMALL, CKR_DATA_LEN_RANGE,
    CKR_KEY_HANDLE_INVALID, CKR_MECHANISM_INVALID, CKR_OK, CKR_OPERATION_NOT_INITIALIZED,
    CKR_SIGNATURE_INVALID, CKZ_DATA_SPECIFIED, CK_MECHANISM, CK_RSA_PKCS_OAEP_PARAMS, CK_SESSION_HANDLE,
    OAEP_PARAMS_SIZE,
};

const N16: [u8; 16] = [0xff, 0xff, 0xff, 0xff, 0xff, 0xff, 0xff, 0x72, 0x00, 0x00, 0x00, 0x00, 0x00, 0x00, 0x13, 0x21];
const E: [u8; 3] = [0x01, 0x00, 0x01];

fn session_with_public_key() -> (State, CK_SESSION_HANDLE) {
    let mut token = Token::default();
    token.bound = true;
    token.objs.push(TokenObject {
        handle: 7,
        cls: ObjClass::PubKey,
        id: b"KEYX".to_vec(),
        can_verify: true,
        can_encrypt: true,
        modulus: N16.to_vec(),
        pubexp: E.to_vec(),
        modulus_bits: 128,
        ..Default::default()
    });
    token.objs.push(TokenObject {
        handle: 8,
        cls: ObjClass::Cert,
        id: b"KEYX".to_vec(),
        ..Default::default()
    });
    let mut st = State::new();
    assert_eq!(c_initialize(&mut st, Some(vec!["r".to_string()])), CKR_OK);
    assert_eq!(card_connected(&mut st, 0, true), CKR_OK);
    store_binding(&mut st, 0, token, CardState { cla: 0x80, cla_locked: true, profile: CardProfile::Gen1 });
    let (rv, h) = c_open_session(&mut st, 0, CKF_SERIAL_SESSION);
    assert_eq!(rv, CKR_OK);
    (st, h)
}

fn mechanism(m: u64) -> CK_MECHANISM {
    CK_MECHANISM { mechanism: m, pParameter: None, ulParameterLen: 0 }
}

#[test]
fn raw_and_padded_signatures_verify() {
    let (mut st, h) = session_with_public_key();
    let raw_sig = [0x28, 0x65, 0xdf, 0xf2, 0x14, 0xed, 0xd7, 0x90, 0xaf, 0xf5, 0xbf, 0xf3, 0x6d, 0xce, 0xbc, 0x6c];
    let mut data = [0u8; 16];
    data[15] = 0x41;
    assert_eq!(c_verify_init(&mut st, h, Some(CKM_RSA_X_509), 7), CKR_OK);
    assert_eq!(c_verify(&mut st, h, Some(&data), Some(&raw_sig)), CKR_OK);
    assert_eq!(c_verify(&mut st, h, Some(&data), Some(&raw_sig)), CKR_OPERATION_NOT_INITIALIZED);

    let sig = [0x17, 0x62, 0x65, 0x13, 0x37, 0x51, 0x29, 0x1b, 0x7e, 0xab, 0x19, 0x06, 0xd1, 0xff, 0xe3, 0x69];
    assert_eq!(c_verify_init(&mut st, h, Some(CKM_RSA_PKCS), 7), CKR_OK);
    assert_eq!(c_verify_update(&mut st, h, Some(b"a")), CKR_OK);
    assert_eq!(c_verify_update(&mut st, h, Some(b"bc")), CKR_OK);
    assert_eq!(c_verify_final(&mut st, h, Some(&sig)), CKR_OK);

    assert_eq!(c_verify_init(&mut st, h, Some(CKM_RSA_PKCS), 7), CKR_OK);
    assert_eq!(c_verify(&mut st, h, Some(b"abd"), Some(&sig)), CKR_SIGNATURE_INVALID);

    assert_eq!(c_verify_init(&mut st, h, Some(CKM_SHA256_RSA_PKCS), 7), CKR_OK);
    assert_eq!(c_verify(&mut st, h, Some(b"abc"), Some(&sig)), CKR_DATA_LEN_RANGE);

    assert_eq!(c_verify_init(&mut st, h, Some(CKM_RSA_PKCS), 8), CKR_KEY_HANDLE_INVALID);
    assert_eq!(c_verify_init(&mut st, h, Some(CKM_SHA256), 7), CKR_MECHANISM_INVALID);
    assert_eq!(c_verify_init(&mut st, h, None, 7), CKR_ARGUMENTS_BAD);
}

#[test]
fn raw_encryption_applies_the_public_key() {
    let (mut st, h) = session_with_public_key();
    let pt: Vec<u8> = (0u8..16).collect();
    assert_eq!(c_encrypt_init(&mut st, h, Some(&mechanism(CKM_RSA_X_509)), 7), CKR_OK);
    let (rv, len, _) = c_encrypt(&mut st, h, Some(&pt), None, true);
    assert_eq!(rv, CKR_OK);
    assert_eq!(len, Some(256));
    let (rv, len, out) = c_encrypt(&mut st, h, Some(&pt), Some(4), true);
    assert_eq!(rv, CKR_BUFFER_TOO_SMALL);
    assert_eq!(len, Some(16));
    assert!(out.is_empty());
    let (rv, len, out) = c_encrypt(&mut st, h, Some(&pt), Some(16), true);
    assert_eq!(rv, CKR_OK);
    assert_eq!(len, Some(16));
    assert_eq!(out, vec![0xb2, 0x14, 0x9a, 0x0f, 0x57, 0x95, 0x6b, 0x32, 0xd4, 0x78, 0x3b, 0x26, 0xbf, 0xb0, 0xb4, 0x38]);
    assert_eq!(c_encrypt(&mut st, h, Some(&pt), Some(16), true).0, CKR_OPERATION_NOT_INITIALIZED);

    assert_eq!(c_encrypt_init(&mut st, h, Some(&mechanism(CKM_RSA_X_509)), 7), CKR_OK);
    assert_eq!(c_encrypt_update(&mut st, h, Some(&pt[..5]), true), CKR_OK);
    assert_eq!(c_encrypt_update(&mut st, h, Some(&pt[5..]), true), CKR_OK);
    let (rv, _, out) = c_encrypt_final(&mut st, h, Some(16), true);
    assert_eq!(rv, CKR_OK);
    assert_eq!(out[0], 0xb2);

    assert_eq!(c_encrypt_init(&mut st, h, Some(&mechanism(CKM_RSA_X_509)), 7), CKR_OK);
    assert_eq!(c_encrypt(&mut st, h, Some(&pt[..3]), Some(16), true).0, CKR_DATA_LEN_RANGE);
    assert_eq!(c_encrypt_init(&mut st, h, Some(&mechanism(CKM_SHA256)), 7), CKR_MECHANISM_INVALID);
    assert_eq!(c_encrypt_init(&mut st, h, Some(&mechanism(CKM_RSA_PKCS)), 8), CKR_KEY_HANDLE_INVALID);
}

#[test]
fn padded_encryption_gives_a_value_below_the_modulus() {
    let (mut st, h) = session_with_public_key();
    assert_eq!(c_encrypt_init(&mut st, h, Some(&mechanism(CKM_RSA_PKCS)), 7), CKR_OK);
    let (rv, _, out) = c_encrypt(&mut st, h, Some(b"hi"), Some(16), true);
    assert_eq!(rv, CKR_OK);
    assert_eq!(out.len(), 16);
    assert!(out.as_slice() < &N16[..]);
}

#[test]
fn oaep_parameters_are_checked() {
    let good = CK_MECHANISM {
        mechanism: CKM_RSA_PKCS_OAEP,
        pParameter: Some(CK_RSA_PKCS_OAEP_PARAMS {
            hashAlg: CKM_SHA_1,
            mgf: CKG_MGF1_SHA1,
            source: CKZ_DATA_SPECIFIED,
            pSourceData: Some(vec![1, 2]),
            ulSourceDataLen: 2,
        }),
        ulParameterLen: OAEP_PARAMS_SIZE,
    };
    let (hash, label) = parse_oaep_params(&good).unwrap();
    assert_eq!(hash, CKM_SHA_1);
    assert_eq!(label, vec![1, 2]);

    let mismatched = CK_MECHANISM {
        mechanism: CKM_RSA_PKCS_OAEP,
        pParameter: Some(CK_RSA_PKCS_OAEP_PARAMS {
            hashAlg: CKM_SHA_1,
            mgf: CKG_MGF1_SHA256,
            source: CKZ_DATA_SPECIFIED,
            pSourceData: None,
            ulSourceDataLen: 0,
        }),
        ulParameterLen: OAEP_PARAMS_SIZE,
    };
    assert_eq!(parse_oaep_params(&mismatched).unwrap_err(), CKR_MECHANISM_INVALID);
    let (hash, label) = parse_oaep_params(&mechanism(CKM_RSA_PKCS_OAEP)).unwrap();
    assert_eq!(hash, CKM_SHA256);
    assert!(label.is_empty());
    let short = CK_MECHANISM { ulParameterLen: 8, ..good };
    assert_eq!(parse_oaep_params(&short).unwrap_err(), CKR_ARGUMENTS_BAD);
}
