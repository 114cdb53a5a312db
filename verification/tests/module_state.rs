use openhicos::apdu::{CardProfile, CardState, Flow, Response};
use openhicos::p15::{ObjClass, Token, TokenObject};
use openhicos::pkcs11::module::{
    c_close_all_sessions, c_close_session, c_digest, c_digest_final, c_digest_init, c_digest_update, c_finalize,
    c_find_objects, c_find_objects_final, c_find_objects_init, c_generate_random, c_get_attribute_value, c_get_info,
    c_get_mechanism_info, c_get_mechanism_list, c_get_session_info, c_get_slot_info, c_get_slot_list,
    c_get_token_info, c_initialize, c_login, c_logout, c_open_session, card_connected, card_need, store_binding,
    CardNeed, State,
};
use openhicos::pkcs11::types::{
    CKA_CLASS, CKA_VALUE, CKF_RW_SESSION, CKF_SERIAL_SESSION, CKM_RSA_PKCS, CKM_SHA256, CKR_ARGUMENTS_BAD,
    CKR_BUFFER_TOO_SMALL, CKR_CRYPTOKI_ALREADY_INITIALIZED, CKR_CRYPTOKI_NOT_INITIALIZED, CKR_DEVICE_ERROR,
    CKR_MECHANISM_INVALID, CKR_OBJECT_HANDLE_INVALID, CKR_OK, CKR_OPERATION_NOT_INITIALIZED, CKR_PIN_INCORRECT,
    CKR_PIN_LOCKED, CKR_SESSION_HANDLE_INVALID, CKR_SLOT_ID_INVALID, CKS_RO_PUBLIC_SESSION, CKS_RO_USER_FUNCTIONS,
    CKS_RW_PUBLIC_SESSION, CKS_RW_USER_FUNCTIONS, CKU_USER, CK_ATTRIBUTE, CK_FALSE, CK_SESSION_HANDLE, CK_TRUE,
};

fn bound_token() -> Token {
    let mut token = Token::default();
    token.bound = true;
    token.label = "Test Card".to_string();
    token.objs.push(TokenObject {
        handle: 1,
        cls: ObjClass::Cert,
        id: b"SIGN".to_vec(),
        label: "cert1".to_string(),
        data: vec![0x30, 0x03, 0x02, 0x01, 0x05],
        ..Default::default()
    });
    token.objs.push(TokenObject {
        handle: 2,
        cls: ObjClass::PrivKey,
        id: b"SIGN".to_vec(),
        key_ref: 1,
        private: true,
        can_sign: true,
        ..Default::default()
    });
    token
}

fn ready_state() -> (State, CK_SESSION_HANDLE) {
    let mut st = State::new();
    assert_eq!(c_initialize(&mut st, Some(vec!["reader 0".to_string()])), CKR_OK);
    assert!(matches!(card_need(&st, 0), CardNeed::Connect));
    assert_eq!(card_connected(&mut st, 0, true), CKR_OK);
    assert!(matches!(card_need(&st, 0), CardNeed::Bind));
    store_binding(&mut st, 0, bound_token(), CardState { cla: 0x80, cla_locked: true, profile: CardProfile::Gen1 });
    assert!(matches!(card_need(&st, 0), CardNeed::Ready));
    let (rv, h) = c_open_session(&mut st, 0, CKF_SERIAL_SESSION);
    assert_eq!(rv, CKR_OK);
    assert_eq!(h, 1);
    (st, h)
}

fn ok() -> Option<Response> {
    Some(Response { sw: 0x9000, data: Vec::new() })
}

#[test]
fn initialize_and_finalize() {
    let mut st = State::new();
    let (rv, info) = c_get_info(&st, true);
    assert_eq!(rv, CKR_CRYPTOKI_NOT_INITIALIZED);
    assert!(info.is_none());
    assert_eq!(c_finalize(&mut st), CKR_CRYPTOKI_NOT_INITIALIZED);
    assert_eq!(c_initialize(&mut st, None), CKR_DEVICE_ERROR);
    assert!(!st.initialized);
    assert_eq!(c_initialize(&mut st, Some(vec!["a".to_string(), "b".to_string()])), CKR_OK);
    assert_eq!(c_initialize(&mut st, Some(vec![])), CKR_CRYPTOKI_ALREADY_INITIALIZED);
    assert_eq!(st.slots.len(), 2);
    assert_eq!(st.slots[1].reader, "b");

    let (rv, info) = c_get_info(&st, true);
    assert_eq!(rv, CKR_OK);
    let info = info.unwrap();
    assert_eq!(info.cryptokiVersion.major, 2);
    assert_eq!(info.cryptokiVersion.minor, 40);
    assert_eq!(&info.manufacturerID[..9], b"openhicos");
    assert!(info.manufacturerID[9..].iter().all(|&b| b == b' '));
    assert_eq!(c_get_info(&st, false).0, CKR_ARGUMENTS_BAD);

    assert_eq!(c_finalize(&mut st), CKR_OK);
    assert!(!st.initialized);
    assert!(st.slots.is_empty());
}

#[test]
fn slot_list_reports_count_and_fills_room() {
    let mut st = State::new();
    assert_eq!(c_initialize(&mut st, Some(vec!["a".to_string(), "b".to_string(), "c".to_string()])), CKR_OK);
    let (rv, ids, count) = c_get_slot_list(&st, CK_FALSE, None, true);
    assert_eq!(rv, CKR_OK);
    assert!(ids.is_empty());
    assert_eq!(count, Some(3));
    let (rv, ids, count) = c_get_slot_list(&st, CK_TRUE, Some(2), true);
    assert_eq!(rv, CKR_BUFFER_TOO_SMALL);
    assert_eq!(ids, vec![0, 1]);
    assert_eq!(count, None);
    let (rv, ids, count) = c_get_slot_list(&st, CK_TRUE, Some(8), true);
    assert_eq!(rv, CKR_OK);
    assert_eq!(ids, vec![0, 1, 2]);
    assert_eq!(count, Some(3));
    assert_eq!(c_get_slot_list(&st, CK_TRUE, Some(8), false).0, CKR_ARGUMENTS_BAD);

    let (rv, info) = c_get_slot_info(&st, 1, true);
    assert_eq!(rv, CKR_OK);
    let info = info.unwrap();
    assert_eq!(info.slotDescription[0], b'b');
    assert_eq!(c_get_slot_info(&st, 9, true).0, CKR_ARGUMENTS_BAD);
}

#[test]
fn mechanisms_are_listed_and_described() {
    let mut st = State::new();
    assert_eq!(c_get_mechanism_list(&st, None, true).0, CKR_CRYPTOKI_NOT_INITIALIZED);
    assert_eq!(c_initialize(&mut st, Some(vec!["a".to_string()])), CKR_OK);
    let (rv, _, count) = c_get_mechanism_list(&st, None, true);
    assert_eq!(rv, CKR_OK);
    let n = count.unwrap();
    let (rv, list, _) = c_get_mechanism_list(&st, Some(n), true);
    assert_eq!(rv, CKR_OK);
    assert_eq!(list.len() as u64, n);
    assert!(list.contains(&CKM_RSA_PKCS));
    assert!(list.contains(&CKM_SHA256));
    assert_eq!(c_get_mechanism_list(&st, Some(1), true).0, CKR_BUFFER_TOO_SMALL);

    let (rv, info) = c_get_mechanism_info(&st, 0, CKM_RSA_PKCS, true);
    assert_eq!(rv, CKR_OK);
    assert!(info.is_some());
    assert_eq!(c_get_mechanism_info(&st, 0, 0xFFFF_FFFF, true).0, CKR_MECHANISM_INVALID);
    assert_eq!(c_get_mechanism_info(&st, 5, CKM_RSA_PKCS, true).0, CKR_SLOT_ID_INVALID);
}

#[test]
fn sessions_open_and_close() {
    let (mut st, h) = ready_state();
    let (rv, info) = c_get_session_info(&st, h, true);
    assert_eq!(rv, CKR_OK);
    let info = info.unwrap();
    assert_eq!(info.slotID, 0);
    assert_eq!(info.state, CKS_RO_PUBLIC_SESSION);
    assert_eq!(c_get_session_info(&st, 7, true).0, CKR_SESSION_HANDLE_INVALID);

    let (rv, h2) = c_open_session(&mut st, 0, CKF_SERIAL_SESSION | CKF_RW_SESSION);
    assert_eq!(rv, CKR_OK);
    assert_eq!(h2, 2);
    assert_eq!(c_get_session_info(&st, h2, true).1.unwrap().state, CKS_RW_PUBLIC_SESSION);
    assert_eq!(c_open_session(&mut st, 4, CKF_SERIAL_SESSION).0, CKR_SLOT_ID_INVALID);

    assert_eq!(c_close_session(&mut st, h), CKR_OK);
    assert_eq!(c_close_session(&mut st, h), CKR_SESSION_HANDLE_INVALID);
    assert_eq!(c_close_all_sessions(&mut st, 0), CKR_OK);
    assert_eq!(c_get_session_info(&st, h2, true).0, CKR_SESSION_HANDLE_INVALID);

    let info = c_get_token_info(&st, 0);
    assert_eq!(&info.label[..9], b"Test Card");
    assert_eq!(info.label[9], b' ');
}

#[test]
fn searches_see_private_objects_only_after_login() {
    let (mut st, h) = ready_state();
    assert_eq!(c_find_objects_init(&mut st, h, &[]), CKR_OK);
    let (rv, found) = c_find_objects(&mut st, h, 10, true);
    assert_eq!(rv, CKR_OK);
    assert_eq!(found, vec![1]);
    assert_eq!(c_find_objects_final(&mut st, h), CKR_OK);

    let class = CK_ATTRIBUTE { type_: CKA_CLASS, pValue: Some(vec![1, 0, 0, 0, 0, 0, 0, 0]), ulValueLen: 8 };
    assert_eq!(c_find_objects_init(&mut st, h, &[class]), CKR_OK);
    let (rv, found) = c_find_objects(&mut st, h, 1, true);
    assert_eq!(rv, CKR_OK);
    assert_eq!(found, vec![1]);
    let (rv, found) = c_find_objects(&mut st, h, 1, true);
    assert_eq!(rv, CKR_OK);
    assert!(found.is_empty());

    let query = CK_ATTRIBUTE { type_: CKA_VALUE, pValue: None, ulValueLen: 0 };
    let (rv, filled) = c_get_attribute_value(&st, h, 1, Some(&[query]));
    assert_eq!(rv, CKR_OK);
    assert_eq!(filled[0].ulValueLen, 5);
    let fetch = CK_ATTRIBUTE { type_: CKA_VALUE, pValue: Some(vec![0; 8]), ulValueLen: 8 };
    let (rv, filled) = c_get_attribute_value(&st, h, 1, Some(&[fetch]));
    assert_eq!(rv, CKR_OK);
    assert_eq!(filled[0].ulValueLen, 5);
    assert_eq!(&filled[0].pValue.as_ref().unwrap()[..5], &[0x30, 0x03, 0x02, 0x01, 0x05]);
    let short = CK_ATTRIBUTE { type_: CKA_VALUE, pValue: Some(vec![0; 2]), ulValueLen: 2 };
    assert_eq!(c_get_attribute_value(&st, h, 1, Some(&[short])).0, CKR_BUFFER_TOO_SMALL);
    assert_eq!(c_get_attribute_value(&st, h, 9, Some(&[])).0, CKR_OBJECT_HANDLE_INVALID);
}

#[test]
fn login_is_a_card_dialogue_and_shared_by_the_slot() {
    let (mut st, h) = ready_state();
    let iv = Some(vec![1, 2, 3, 4, 5, 6, 7, 8]);
    let pin: &[u8] = b"123456";

    match c_login(&mut st, 99, CKU_USER, Some(pin), &iv, &[], 0) {
        Flow::Done(rv, n) => {
            assert_eq!(rv, CKR_SESSION_HANDLE_INVALID);
            assert_eq!(n, 0);
        },
        Flow::Transmit(_) => panic!("no command expected"),
    }

    let mut log: Vec<Option<Response>> = Vec::new();
    let rv = loop {
        match c_login(&mut st, h, CKU_USER, Some(pin), &iv, &log, 0) {
            Flow::Transmit(cmd) => {
                if log.is_empty() {
                    assert_eq!(&cmd[1..], &[0xA4, 0x00, 0x00, 0x02, 0x08, 0x10]);
                } else {
                    assert_eq!(&cmd[..5], &[0x8C, 0x20, 0x00, 0x01, 0x20]);
                    assert_eq!(&cmd[5..13], &[1, 2, 3, 4, 5, 6, 7, 8]);
                }
                log.push(ok());
            },
            Flow::Done(rv, n) => {
                assert_eq!(n, 2);
                break rv;
            },
        }
    };
    assert_eq!(rv, CKR_OK);
    assert!(st.slots[0].logged_in);
    assert_eq!(c_get_session_info(&st, h, true).1.unwrap().state, CKS_RO_USER_FUNCTIONS);
    let (rv, h2) = c_open_session(&mut st, 0, CKF_SERIAL_SESSION | CKF_RW_SESSION);
    assert_eq!(rv, CKR_OK);
    assert_eq!(c_get_session_info(&st, h2, true).1.unwrap().state, CKS_RW_USER_FUNCTIONS);

    assert_eq!(c_find_objects_init(&mut st, h, &[]), CKR_OK);
    assert_eq!(c_find_objects(&mut st, h, 10, true).1, vec![1, 2]);

    assert_eq!(c_logout(&mut st, h2), CKR_OK);
    assert!(!st.slots[0].logged_in);
    assert_eq!(c_get_session_info(&st, h, true).1.unwrap().state, CKS_RO_PUBLIC_SESSION);
}

#[test]
fn login_answers_map_to_statuses() {
    let iv = Some(vec![0; 8]);
    let pin: &[u8] = b"0000";
    for (sw, expected) in [(0x63C2, CKR_PIN_INCORRECT), (0x6983, CKR_PIN_LOCKED), (0x6A82, CKR_DEVICE_ERROR)] {
        let (mut st, h) = ready_state();
        let log = vec![ok(), Some(Response { sw, data: Vec::new() })];
        match c_login(&mut st, h, CKU_USER, Some(pin), &iv, &log, 0) {
            Flow::Done(rv, n) => {
                assert_eq!(rv, expected);
                assert_eq!(n, 2);
            },
            Flow::Transmit(_) => panic!("dialogue should be done"),
        }
        assert!(!st.slots[0].logged_in);
    }
    let (mut st, h) = ready_state();
    match c_login(&mut st, h, CKU_USER, None, &iv, &[], 0) {
        Flow::Done(rv, _) => assert_eq!(rv, CKR_ARGUMENTS_BAD),
        Flow::Transmit(_) => panic!("no command expected"),
    }
}

#[test]
fn digests_in_one_part_and_in_parts_agree() {
    let (mut st, h) = ready_state();
    let expected = [
        0xba, 0x78, 0x16, 0xbf, 0x8f, 0x01, 0xcf, 0xea, 0x41, 0x41, 0x40, 0xde, 0x5d, 0xae, 0x22, 0x23, 0xb0, 0x03,
        0x61, 0xa3, 0x96, 0x17, 0x7a, 0x9c, 0xb4, 0x10, 0xff, 0x61, 0xf2, 0x00, 0x15, 0xad,
    ];
    assert_eq!(c_digest_init(&mut st, h, Some(CKM_SHA256)), CKR_OK);
    let (rv, len, out) = c_digest(&mut st, h, Some(b"abc"), None, true);
    assert_eq!(rv, CKR_OK);
    assert_eq!(len, Some(32));
    assert!(out.is_empty());
    let (rv, len, _) = c_digest(&mut st, h, Some(b"abc"), Some(4), true);
    assert_eq!(rv, CKR_BUFFER_TOO_SMALL);
    assert_eq!(len, Some(32));
    let (rv, _, out) = c_digest(&mut st, h, Some(b"abc"), Some(64), true);
    assert_eq!(rv, CKR_OK);
    assert_eq!(out, expected);
    assert_eq!(c_digest(&mut st, h, Some(b"abc"), Some(64), true).0, CKR_OPERATION_NOT_INITIALIZED);

    assert_eq!(c_digest_init(&mut st, h, Some(CKM_SHA256)), CKR_OK);
    assert_eq!(c_digest_update(&mut st, h, Some(b"a")), CKR_OK);
    assert_eq!(c_digest_update(&mut st, h, Some(b"bc")), CKR_OK);
    let (rv, _, out) = c_digest_final(&mut st, h, Some(32), true);
    assert_eq!(rv, CKR_OK);
    assert_eq!(out, expected);

    assert_eq!(c_digest_init(&mut st, h, Some(CKM_RSA_PKCS)), CKR_MECHANISM_INVALID);
    assert_eq!(c_digest_init(&mut st, h, None), CKR_ARGUMENTS_BAD);
}

#[test]
fn random_bytes_come_from_the_system() {
    let (st, h) = ready_state();
    let (rv, bytes) = c_generate_random(&st, h, 32, true);
    assert_eq!(rv, CKR_OK);
    assert_eq!(bytes.len(), 32);
    assert!(bytes.iter().any(|&b| b != 0));
    let (rv, bytes) = c_generate_random(&st, h, 0, false);
    assert_eq!(rv, CKR_OK);
    assert!(bytes.is_empty());
    assert_eq!(c_generate_random(&st, h, 4, false).0, CKR_ARGUMENTS_BAD);
    assert_eq!(c_generate_random(&st, 3, 4, true).0, CKR_SESSION_HANDLE_INVALID);
}
