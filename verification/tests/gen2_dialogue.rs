use openhicos::apdu::gen2::{aes_cbc_encrypt, aes_ecb_decrypt, aes_ecb_encrypt, counter_block, open_scp03, scp03_kdf};
use openhicos::apdu::{CardProfile, CardState, Flow, Response};
use openhicos::p15::Token;
use openhicos::pkcs11::module::{c_initialize, c_login, c_logout, c_open_session, card_connected, store_binding, State};
use openhicos::pkcs11::types::{CKF_SERIAL_SESSION, CKR_OK, CKR_PIN_INCORRECT, CKU_USER};

const CARD_ID: [u8; 10] = [0x24, 0x05, 0x69, 0x64, 0x13, 0x00, 0x01, 0x90, 0x39, 0x57];
const K_ENC: [u8; 16] = [
    0xab, 0x9c, 0x3c, 0x08, 0x3f, 0xe6, 0x3f, 0x48, 0x37, 0x57, 0xda, 0x8e, 0x4f, 0xea, 0xf1, 0xbb,
];
const K_MAC: [u8; 16] = [
    0x32, 0x76, 0x2e, 0x98, 0x42, 0x30, 0x9b, 0x5a, 0x3a, 0xc3, 0x7c, 0xc3, 0x4f, 0x20, 0x77, 0x59,
];
const HOST: [u8; 8] = [0xD4, 0x05, 0xEC, 0x4C, 0xDC, 0x43, 0xCF, 0x8D];
const CARD_CHALLENGE: [u8; 8] = [0x03, 0x61, 0xBB, 0x15, 0xA8, 0xB6, 0x8C, 0x2E];

fn ok(data: Vec<u8>) -> Option<Response> {
    Some(Response { sw: 0x9000, data })
}

/// A second-generation card with the static keys above; `verify_sw` is its
/// answer to VERIFY.
fn gen2_card(cmd: &[u8], verify_sw: u16) -> Option<Response> {
    match cmd[1] {
        0xA4 | 0x82 => ok(Vec::new()),
        0xCA => {
            if cmd[3] == 0xE0 {
                ok(vec![0xE0, 0x06, 0xC0, 0x04, 0x01, 0x30, 0x88, 0x10])
            } else {
                let mut d = vec![0x45, 0x0A];
                d.extend_from_slice(&CARD_ID);
                ok(d)
            }
        },
        0x50 => {
            let mut context = cmd[5..13].to_vec();
            context.extend_from_slice(&CARD_CHALLENGE);
            let s_mac = scp03_kdf(&K_MAC, 0x06, &context, 0x80);
            let cryptogram = scp03_kdf(&s_mac, 0x00, &context, 0x40);
            let mut d = CARD_ID.to_vec();
            d.extend_from_slice(&[0x30, 0x03, 0x00]);
            d.extend_from_slice(&CARD_CHALLENGE);
            d.extend_from_slice(&cryptogram);
            ok(d)
        },
        0x20 => Some(Response { sw: verify_sw, data: Vec::new() }),
        _ => Some(Response { sw: 0x6D00, data: Vec::new() }),
    }
}

fn gen2_session() -> (State, u64) {
    let mut st = State::new();
    assert_eq!(c_initialize(&mut st, Some(vec!["r".to_string()])), CKR_OK);
    assert_eq!(card_connected(&mut st, 0, true), CKR_OK);
    let mut token = Token::default();
    token.bound = true;
    store_binding(&mut st, 0, token, CardState { cla: 0x00, cla_locked: true, profile: CardProfile::Gen2 });
    let (rv, h) = c_open_session(&mut st, 0, CKF_SERIAL_SESSION);
    assert_eq!(rv, CKR_OK);
    (st, h)
}

#[test]
fn scp03_opens_against_a_card_with_the_static_keys() {
    let host = Some(HOST.to_vec());
    let mut log = Vec::new();
    let mut sent = Vec::new();
    let sess = loop {
        match open_scp03(&K_ENC, &K_MAC, &host, &log, 0) {
            Flow::Transmit(cmd) => {
                sent.push(cmd.clone());
                log.push(gen2_card(&cmd, 0x9000));
            },
            Flow::Done(r, n) => {
                assert_eq!(n, 3);
                break r;
            },
        }
    };
    let sess = sess.unwrap();
    assert!(sess.open);
    assert_eq!(sess.enc_counter, 1);
    assert_eq!(&sent[1][..5], &[0x80, 0x50, 0x01, 0x00, 0x08]);
    assert_eq!(&sent[1][5..13], &HOST);
    assert_eq!(&sent[2][..5], &[0x84, 0x82, 0x03, 0x00, 0x10]);

    let mut iu = gen2_card(&sent[1], 0x9000).unwrap();
    iu.data[28] ^= 1;
    let bad = vec![gen2_card(&sent[0], 0x9000), Some(iu)];
    assert!(matches!(open_scp03(&K_ENC, &K_MAC, &host, &bad, 0), Flow::Done(Err(()), 2)));
    assert!(matches!(open_scp03(&K_ENC, &K_MAC, &None, &log, 0), Flow::Done(Err(()), 1)));
}

#[test]
fn gen2_login_reproduces_the_verify_trace() {
    let (mut st, h) = gen2_session();
    let host = Some(HOST.to_vec());
    let pin: &[u8] = b"000000";
    let mut log = Vec::new();
    let mut verify_cmd = Vec::new();
    let rv = loop {
        match c_login(&mut st, h, CKU_USER, Some(pin), &host, &log, 0) {
            Flow::Transmit(cmd) => {
                if cmd[1] == 0x20 {
                    verify_cmd = cmd.clone();
                }
                log.push(gen2_card(&cmd, 0x9000));
            },
            Flow::Done(rv, _) => break rv,
        }
    };
    assert_eq!(rv, CKR_OK);
    assert!(st.slots[0].logged_in);
    assert_eq!(&verify_cmd[..5], &[0x04, 0x20, 0x00, 0x01, 0x18]);
    assert_eq!(
        &verify_cmd[5..],
        &[
            0xC5, 0xB3, 0xBE, 0x9F, 0x58, 0x3A, 0x7E, 0xED, 0xC0, 0xA3, 0x11, 0x12, 0x43, 0x89, 0xA4, 0x97, 0xE6, 0xEB,
            0x39, 0x52, 0xA4, 0x0B, 0xC3, 0x0D
        ]
    );
    assert!(st.card.auth.scp.open);
    assert_eq!(st.card.auth.cached_pin, Some(pin.to_vec()));
    assert_eq!(c_logout(&mut st, h), CKR_OK);
    assert!(!st.card.auth.scp.open);
    assert_eq!(st.card.auth.cached_pin, None);
}

#[test]
fn gen2_login_with_a_wrong_pin_closes_the_channel() {
    let (mut st, h) = gen2_session();
    let host = Some(HOST.to_vec());
    let pin: &[u8] = b"999999";
    let mut log = Vec::new();
    let rv = loop {
        match c_login(&mut st, h, CKU_USER, Some(pin), &host, &log, 0) {
            Flow::Transmit(cmd) => log.push(gen2_card(&cmd, 0x63C2)),
            Flow::Done(rv, _) => break rv,
        }
    };
    assert_eq!(rv, CKR_PIN_INCORRECT);
    assert!(!st.slots[0].logged_in);
    assert!(!st.card.auth.scp.open);
    assert_eq!(st.card.auth.cached_pin, None);
}

#[test]
fn block_cipher_helpers() {
    let key = [0x2B, 0x7E, 0x15, 0x16, 0x28, 0xAE, 0xD2, 0xA6, 0xAB, 0xF7, 0x15, 0x88, 0x09, 0xCF, 0x4F, 0x3C];
    let pt = [
        0x6B, 0xC1, 0xBE, 0xE2, 0x2E, 0x40, 0x9F, 0x96, 0xE9, 0x3D, 0x7E, 0x11, 0x73, 0x93, 0x17, 0x2A,
    ];
    let ct = aes_ecb_encrypt(&key, &pt);
    assert_eq!(
        ct,
        vec![0x3A, 0xD7, 0x7B, 0xB4, 0x0D, 0x7A, 0x36, 0x60, 0xA8, 0x9E, 0xCA, 0xF3, 0x24, 0x66, 0xEF, 0x97]
    );
    assert_eq!(aes_ecb_decrypt(&key, &ct), pt.to_vec());
    let iv = [0u8; 16];
    assert_eq!(aes_cbc_encrypt(&key, &iv, &pt), ct);
    assert_eq!(counter_block(1), {
        let mut b = vec![0u8; 16];
        b[15] = 1;
        b
    });
    assert_eq!(&counter_block(0x0102_0304)[12..], &[1, 2, 3, 4]);
}
