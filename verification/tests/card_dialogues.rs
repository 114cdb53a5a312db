use openhicos::api::{decrypt, login, sign, DecryptPadding, DecryptRequest, Error, SignMechanism, SignRequest};
use openhicos::apdu::{CardProfile, CardState, Connection, Flow, Response};
use openhicos::p15::{ObjClass, Token, TokenObject};
use openhicos::pkcs11::module::{
    c_decrypt, c_decrypt_init, c_initialize, c_login, c_open_session, c_sign, c_sign_final, c_sign_init,
    c_sign_update, card_connected, store_binding, State,
};
use openhicos::pkcs11::types::{
    CKF_SERIAL_SESSION, CKM_RSA_PKCS, CKM_SHA256_RSA_PKCS, CKR_KEY_HANDLE_INVALID, CKR_OK,
    CKR_OPERATION_NOT_INITIALIZED, CKR_USER_NOT_LOGGED_IN, CKU_USER, CK_MECHANISM, CK_SESSION_HANDLE,
};

/// A first-generation card that accepts every command and answers the
/// result reads from `block`.
fn gen1_card(block: &[u8], cmd: &[u8]) -> Option<Response> {
    match cmd[1] {
        0xA4 | 0x20 | 0xEA => Some(Response { sw: 0x9000, data: Vec::new() }),
        0xC1 => {
            let off = (cmd[2] as usize) * 256 + cmd[3] as usize;
            let want = cmd[4] as usize;
            Some(Response { sw: 0x9000, data: block[off..off + want].to_vec() })
        },
        _ => Some(Response { sw: 0x6D00, data: Vec::new() }),
    }
}

fn type2_block(msg: &[u8]) -> Vec<u8> {
    let mut block = vec![0x00, 0x02];
    block.resize(256 - msg.len() - 1, 0x5A);
    block.push(0x00);
    block.extend_from_slice(msg);
    block
}

fn token() -> Token {
    let mut token = Token::default();
    token.bound = true;
    token.pin_ref = 1;
    token.objs.push(TokenObject {
        handle: 1,
        cls: ObjClass::Cert,
        id: b"SIGN".to_vec(),
        data: vec![0x30, 0x00],
        ..Default::default()
    });
    token.objs.push(TokenObject {
        handle: 2,
        cls: ObjClass::PrivKey,
        id: b"SIGN".to_vec(),
        key_ref: 1,
        private: true,
        can_sign: true,
        ..Default::default()
    });
    token.objs.push(TokenObject {
        handle: 3,
        cls: ObjClass::PrivKey,
        id: b"KEYX".to_vec(),
        key_ref: 2,
        private: true,
        can_decrypt: true,
        ..Default::default()
    });
    token
}

fn module_session() -> (State, CK_SESSION_HANDLE) {
    let mut st = State::new();
    assert_eq!(c_initialize(&mut st, Some(vec!["r".to_string()])), CKR_OK);
    assert_eq!(card_connected(&mut st, 0, true), CKR_OK);
    store_binding(&mut st, 0, token(), CardState { cla: 0x80, cla_locked: true, profile: CardProfile::Gen1 });
    let (rv, h) = c_open_session(&mut st, 0, CKF_SERIAL_SESSION);
    assert_eq!(rv, CKR_OK);
    (st, h)
}

fn module_login(st: &mut State, h: CK_SESSION_HANDLE) {
    let iv = Some(vec![9; 8]);
    let pin: &[u8] = b"1234";
    let mut log = Vec::new();
    loop {
        match c_login(st, h, CKU_USER, Some(pin), &iv, &log, 0) {
            Flow::Transmit(cmd) => log.push(gen1_card(&[], &cmd)),
            Flow::Done(rv, _) => {
                assert_eq!(rv, CKR_OK);
                return;
            },
        }
    }
}

#[test]
fn api_sign_logs_in_and_signs_with_the_card() {
    let req = SignRequest {
        slot_id: None,
        pin: "1234",
        key_id: None,
        mechanism: SignMechanism::Sha256RsaPkcs,
        data: b"hello",
        return_certificate: true,
    };
    let token = token();
    let conn = Connection::new();
    let iv = Some(vec![1; 8]);
    let block = vec![0x11u8; 256];
    let mut log = Vec::new();
    let mut sent = Vec::new();
    let reply = loop {
        match sign(&req, &token, &conn, &iv, &iv, &log, 0) {
            Flow::Transmit(cmd) => {
                sent.push(cmd.clone());
                log.push(gen1_card(&block, &cmd));
            },
            Flow::Done((r, _), _) => break r,
        }
    };
    let reply = reply.unwrap();
    assert_eq!(reply.signature, block);
    assert_eq!(reply.certificate_der, Some(vec![0x30, 0x00]));
    let ea: Vec<&Vec<u8>> = sent.iter().filter(|c| c[1] == 0xEA).collect();
    assert_eq!(ea.len(), 2);
    assert_eq!(&ea[0][..5], &[0x80, 0xEA, 0x82, 0x01, 0x80]);
    assert_eq!(&ea[0][5..7], &[0x00, 0x01]);
}

#[test]
fn api_sign_reports_a_missing_key_and_a_wrong_pin() {
    let token = token();
    let conn = Connection::new();
    let iv = Some(vec![1; 8]);
    let req = SignRequest {
        slot_id: None,
        pin: "1234",
        key_id: Some(b"NONE"),
        mechanism: SignMechanism::RsaPkcs,
        data: b"x",
        return_certificate: false,
    };
    let mut log = Vec::new();
    let reply = loop {
        match sign(&req, &token, &conn, &iv, &iv, &log, 0) {
            Flow::Transmit(cmd) => log.push(gen1_card(&[], &cmd)),
            Flow::Done((r, _), _) => break r,
        }
    };
    match reply {
        Err(Error::KeyNotFound(id)) => assert_eq!(id, "NONE"),
        _ => panic!("expected KeyNotFound"),
    }

    let log = vec![Some(Response { sw: 0x9000, data: Vec::new() }), Some(Response { sw: 0x63C1, data: Vec::new() })];
    match login(&conn, &token, "1234", &iv, &log, 0) {
        Flow::Done((Err(Error::PinIncorrect), _), 2) => {},
        _ => panic!("expected PinIncorrect"),
    }
    match login(&conn, &token, "", &iv, &[], 0) {
        Flow::Done((Err(Error::PinError), _), 0) => {},
        _ => panic!("expected PinError"),
    }
}

#[test]
fn api_decrypt_unpads_what_the_card_returns() {
    let req = DecryptRequest {
        slot_id: None,
        pin: "1234",
        key_id: None,
        padding: DecryptPadding::RsaPkcs,
        ciphertext: &[0x42; 256],
        return_certificate: false,
    };
    let token = token();
    let conn = Connection::new();
    let iv = Some(vec![1; 8]);
    let block = type2_block(b"secret");
    let mut log = Vec::new();
    let reply = loop {
        match decrypt(&req, &token, &conn, &iv, &iv, &log, 0) {
            Flow::Transmit(cmd) => log.push(gen1_card(&block, &cmd)),
            Flow::Done((r, _), _) => break r,
        }
    };
    let reply = reply.unwrap();
    assert_eq!(reply.plaintext, b"secret");
    assert_eq!(reply.certificate_der, None);
}

#[test]
fn module_sign_needs_login_and_uses_the_card() {
    let (mut st, h) = module_session();
    assert_eq!(c_sign_init(&mut st, h, Some(CKM_SHA256_RSA_PKCS), 2), CKR_USER_NOT_LOGGED_IN);
    module_login(&mut st, h);
    assert_eq!(c_sign_init(&mut st, h, Some(CKM_SHA256_RSA_PKCS), 1), CKR_KEY_HANDLE_INVALID);
    assert_eq!(c_sign_init(&mut st, h, Some(CKM_SHA256_RSA_PKCS), 2), CKR_OK);

    let block = vec![0x22u8; 256];
    let iv = Some(vec![3; 8]);
    let mut log = Vec::new();
    let (rv, len, sig) = loop {
        match c_sign(&mut st, h, b"abc", Some(256), true, &iv, &log, 0) {
            Flow::Transmit(cmd) => log.push(gen1_card(&block, &cmd)),
            Flow::Done(r, _) => break r,
        }
    };
    assert_eq!(rv, CKR_OK);
    assert_eq!(len, Some(256));
    assert_eq!(sig, block);
    match c_sign(&mut st, h, b"abc", Some(256), true, &iv, &[], 0) {
        Flow::Done((rv, _, _), _) => assert_eq!(rv, CKR_OPERATION_NOT_INITIALIZED),
        Flow::Transmit(_) => panic!("no operation is active"),
    }

    assert_eq!(c_sign_init(&mut st, h, Some(CKM_RSA_PKCS), 2), CKR_OK);
    assert_eq!(c_sign_update(&mut st, h, b"ab"), CKR_OK);
    assert_eq!(c_sign_update(&mut st, h, b"c"), CKR_OK);
    let mut log = Vec::new();
    let mut sent = Vec::new();
    let (rv, _, sig) = loop {
        match c_sign_final(&mut st, h, Some(256), &iv, &log, 0) {
            Flow::Transmit(cmd) => {
                sent.push(cmd.clone());
                log.push(gen1_card(&block, &cmd));
            },
            Flow::Done(r, _) => break r,
        }
    };
    assert_eq!(rv, CKR_OK);
    assert_eq!(sig, block);
    let second_half = sent.iter().find(|c| c[1] == 0xEA && c[2] == 0x02).unwrap();
    assert_eq!(&second_half[second_half.len() - 4..], &[0x00, b'a', b'b', b'c']);
}

#[test]
fn module_decrypt_unpads_the_card_block() {
    let (mut st, h) = module_session();
    module_login(&mut st, h);
    let mech = CK_MECHANISM { mechanism: CKM_RSA_PKCS, pParameter: None, ulParameterLen: 0 };
    assert_eq!(c_decrypt_init(&mut st, h, Some(&mech), 3), CKR_OK);
    let block = type2_block(b"plain text");
    let iv = Some(vec![3; 8]);
    let mut log = Vec::new();
    let (rv, len, out) = loop {
        match c_decrypt(&mut st, h, &[0x42; 256], Some(256), true, &iv, &log, 0) {
            Flow::Transmit(cmd) => log.push(gen1_card(&block, &cmd)),
            Flow::Done(r, _) => break r,
        }
    };
    assert_eq!(rv, CKR_OK);
    assert_eq!(len, Some(10));
    assert_eq!(out, b"plain text");
}
