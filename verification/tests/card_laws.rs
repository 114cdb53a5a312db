use openhicos::apdu::gen1::{read_key_record, tdes_cbc_encrypt, tdes_cbc_mac, SECURE_PIN_KEY};
use openhicos::apdu::gen2::{self, AuthState};
use openhicos::apdu::{CardProfile, CardState, Flow, PinResult, Response};
use openhicos::api::{recoverable, Error};
use openhicos::p15::reverse_words;
use openhicos::pkcs11::module::{encode_for, type2_block_with};
use openhicos::pkcs11::types::{CKM_RSA_X_509, CKR_DATA_LEN_RANGE};

fn answer(sw: u16, data: Vec<u8>) -> Option<Response> {
    Some(Response { sw, data })
}

#[test]
fn key_records_are_read_after_selecting_the_key_ef() {
    let st = CardState { cla: 0x80, cla_locked: true, profile: CardProfile::Gen1 };
    match read_key_record(&st, 2, 0x181, &[], 0) {
        Flow::Transmit(c) => assert_eq!(c, vec![0x80, 0xA4, 0x00, 0x00, 0x02, 0x08, 0x10]),
        Flow::Done(..) => panic!("expected SELECT of the key EF"),
    }
    let log = vec![answer(0x9000, vec![])];
    match read_key_record(&st, 2, 0x181, &log, 0) {
        Flow::Transmit(c) => assert_eq!(c, vec![0x80, 0xB2, 0x02, 0x00, 0x81]),
        Flow::Done(..) => panic!("expected READ RECORD"),
    }
    let log = vec![answer(0x9000, vec![]), answer(0x9000, vec![7, 8])];
    match read_key_record(&st, 2, 0x181, &log, 0) {
        Flow::Done((Ok(data), _), n) => {
            assert_eq!(data, vec![7, 8]);
            assert_eq!(n, 2);
        },
        _ => panic!("expected the record"),
    }
    let log = vec![answer(0x9000, vec![]), answer(0x9000, vec![])];
    assert!(matches!(read_key_record(&st, 2, 4, &log, 0), Flow::Done((Err(()), _), 2)));
    let failed = vec![answer(0x6A82, vec![]), answer(0x6A82, vec![]), answer(0x6A82, vec![])];
    assert!(matches!(read_key_record(&st, 2, 4, &failed, 0), Flow::Done((Err(()), _), _)));
}

#[test]
fn type2_blocks_are_assembled_around_the_message() {
    let em = type2_block_with(12, b"hi", &[1, 2, 3, 4, 5, 6, 7]);
    assert_eq!(em, vec![0, 2, 1, 2, 3, 4, 5, 6, 7, 0, b'h', b'i']);
}

#[test]
fn raw_rsa_encoding_is_the_data_itself() {
    assert_eq!(encode_for(CKM_RSA_X_509, 0, b"", 4, &[1, 2, 3, 4]).unwrap(), vec![1, 2, 3, 4]);
    assert_eq!(encode_for(CKM_RSA_X_509, 0, b"", 4, &[1, 2, 3]).unwrap_err(), CKR_DATA_LEN_RANGE);
}

#[test]
fn word_reversal_undoes_itself() {
    let raw: Vec<u8> = (1u8..=8).collect();
    let once = reverse_words(&raw);
    assert_eq!(once, vec![5, 6, 7, 8, 1, 2, 3, 4]);
    assert_eq!(reverse_words(&once), raw);
}

#[test]
fn tdes_ciphertext_length_and_last_block() {
    let iv = [0x01, 0x02, 0x03, 0x04, 0x05, 0x06, 0x07, 0x08];
    for len in [0usize, 7, 8, 18] {
        let data: Vec<u8> = (0..len as u8).collect();
        let c = tdes_cbc_encrypt(&SECURE_PIN_KEY, &iv, &data).unwrap();
        assert_eq!(c.len(), 8 * (len / 8 + 1));
        let m = tdes_cbc_mac(&SECURE_PIN_KEY, &iv, &data).unwrap();
        assert_eq!(&c[c.len() - 8..], &m[..]);
    }
}

#[test]
fn gen2_private_operations_need_a_login() {
    let st = AuthState::new();
    let host = Some(vec![1; 8]);
    assert!(matches!(gen2::sign(&st, 1, b"abc", 256, &host, &[], 0), Flow::Done((Err(()), _), 0)));
    assert!(matches!(gen2::decrypt(&st, 1, &[0; 256], 256, &host, &[], 0), Flow::Done((Err(()), _), 0)));
    match gen2::verify_pin(&st, 1, b"", &host, &[], 0) {
        Flow::Done((p, _), 0) => assert_eq!(p, PinResult::Error),
        _ => panic!("an empty PIN is refused at once"),
    }
    match gen2::verify_pin(&st, 1, &[b'1'; 11], &host, &[], 0) {
        Flow::Done((p, _), 0) => assert_eq!(p, PinResult::Error),
        _ => panic!("a long PIN is refused at once"),
    }
}

#[test]
fn only_unrecognized_cards_and_pcsc_failures_let_the_search_go_on() {
    assert!(recoverable(&Error::TokenNotRecognized));
    assert!(recoverable(&Error::Pcsc("x".to_string())));
    assert!(!recoverable(&Error::PinLocked));
    assert!(!recoverable(&Error::NoToken));
}
