use openhicos::apdu::gen1::{tdes_cbc_encrypt, tdes_cbc_mac, SECURE_PIN_KEY};
use openhicos::apdu::gen2;
use openhicos::apdu::gen2::{aes_ecb_decrypt, derive_key, scp03_kdf, wrap_command, DIVERSE_KEK, ISD_CM_AID, MASTER_ENC_BLOB_16};
use openhicos::apdu::{pkcs1_v15_signature_block, pkcs1_v15_unpad_type2, RSA_BLOCK_LEN};
use openhicos::hicos::{aes_cmac, diversify_gppki_keys, scp03_derive, wrap_gppki_verify, Scp03Session, HICOS_V3_KEY};

#[test]
fn hicos_v3_pin_protection_matches_official_trace() {
    let iv = [0xCA, 0x4F, 0x8C, 0x06, 0x3B, 0xBB, 0xFA, 0x3E];
    let pin = [b'6', b'0', b'3', b'5', b'6', b'0', b'3', b'5', 0xFF, 0xFF];
    let mac = tdes_cbc_mac(&HICOS_V3_KEY, &iv, &pin).unwrap();
    let mut protected = pin.to_vec();
    protected.extend_from_slice(&mac);
    let encrypted = tdes_cbc_encrypt(&HICOS_V3_KEY, &iv, &protected).unwrap();
    assert_eq!(
        encrypted,
        [
            0x6C, 0xDD, 0xAF, 0x7D, 0x1A, 0x58, 0x8F, 0x3B, 0x02, 0x08, 0xAB, 0x52, 0x12, 0xA0,
            0x54, 0x44, 0xBE, 0x30, 0xEC, 0x53, 0xD0, 0xB0, 0x16, 0x7C,
        ]
    );
}

#[test]
fn aes_cmac_matches_nist_vectors() {
    let key = [
        0x2B, 0x7E, 0x15, 0x16, 0x28, 0xAE, 0xD2, 0xA6, 0xAB, 0xF7, 0x15, 0x88, 0x09, 0xCF, 0x4F,
        0x3C,
    ];
    assert_eq!(
        aes_cmac(&key, &[]).unwrap(),
        [
            0xBB, 0x1D, 0x69, 0x29, 0xE9, 0x59, 0x37, 0x28, 0x7F, 0xA3, 0x7D, 0x12, 0x9B, 0x75,
            0x67, 0x46,
        ]
    );
    assert_eq!(
        aes_cmac(
            &key,
            &[
                0x6B, 0xC1, 0xBE, 0xE2, 0x2E, 0x40, 0x9F, 0x96, 0xE9, 0x3D, 0x7E, 0x11, 0x73, 0x93,
                0x17, 0x2A,
            ],
        )
        .unwrap(),
        [
            0x07, 0x0A, 0x16, 0xB4, 0x6B, 0x4D, 0x41, 0x44, 0xF7, 0x9B, 0xDD, 0x9D, 0xD0, 0x4A,
            0x28, 0x7C,
        ]
    );
}

#[test]
fn gppki_scp03_matches_synthetic_regression_vector() {
    let diversification_data = [0x01, 0x02, 0x03, 0x04, 0x05, 0x06, 0x07, 0x08, 0x09, 0x0A];
    let keys = diversify_gppki_keys(&diversification_data).unwrap();
    assert_eq!(
        keys[0],
        [
            0xE7, 0x45, 0x71, 0xCB, 0x8A, 0xDB, 0xD4, 0x6A, 0x9C, 0x28, 0x7E, 0x19, 0x4B, 0xEE,
            0xE3, 0x45,
        ]
    );
    assert_eq!(
        keys[1],
        [
            0x95, 0x15, 0x40, 0x55, 0x15, 0x43, 0x04, 0x81, 0x22, 0xE4, 0x4A, 0x61, 0x23, 0x77,
            0x03, 0x82,
        ]
    );
    assert_eq!(
        keys[2],
        [
            0xFE, 0x58, 0x23, 0x03, 0x6F, 0x2B, 0xC2, 0x36, 0x08, 0x9A, 0x15, 0x86, 0x98, 0xF9,
            0x6F, 0xBF,
        ]
    );

    let host = [0x10, 0x11, 0x12, 0x13, 0x14, 0x15, 0x16, 0x17];
    let card = [0x20, 0x21, 0x22, 0x23, 0x24, 0x25, 0x26, 0x27];
    let session_encryption = scp03_derive(0x04, 0x80, &keys[0], &host, &card).unwrap();
    let session_mac = scp03_derive(0x06, 0x80, &keys[1], &host, &card).unwrap();
    assert_eq!(
        session_encryption,
        [
            0x46, 0x77, 0xA0, 0x96, 0xBD, 0x26, 0xA9, 0x7A, 0xB1, 0x8A, 0xF8, 0x2D, 0xB2, 0x81,
            0x5C, 0x9A,
        ]
    );
    assert_eq!(
        session_mac,
        [
            0x95, 0xA1, 0x10, 0x33, 0x70, 0x93, 0xB9, 0x97, 0x6B, 0x21, 0x77, 0xE9, 0x0D, 0x9E,
            0xFA, 0x3E,
        ]
    );
    let card_cryptogram = scp03_derive(0x00, 0x40, &session_mac, &host, &card).unwrap();
    let host_cryptogram = scp03_derive(0x01, 0x40, &session_mac, &host, &card).unwrap();
    assert_eq!(&card_cryptogram[..8], &[0xEA, 0x24, 0x0C, 0x98, 0xD4, 0xB4, 0xC8, 0xB7]);
    assert_eq!(&host_cryptogram[..8], &[0xBF, 0x6D, 0x8B, 0x63, 0xA4, 0x57, 0x8B, 0xC8]);

    let mut external_mac_input = vec![0u8; 16];
    external_mac_input.extend_from_slice(&[0x84, 0x82, 0x03, 0x00, 0x10]);
    external_mac_input.extend_from_slice(&host_cryptogram[..8]);
    let external_mac = aes_cmac(&session_mac, &external_mac_input).unwrap();
    assert_eq!(&external_mac[..8], &[0xB5, 0x62, 0x33, 0x57, 0x31, 0xE2, 0x58, 0x53]);

    let mut counter = [0u8; 16];
    counter[15] = 1;
    let mut session = Scp03Session {
        encryption_key: session_encryption,
        mac_key: session_mac,
        mac_chaining_value: external_mac,
        encryption_counter: counter.to_vec(),
    };
    let wrapped = wrap_gppki_verify(&mut session, 1, b"123456").unwrap();
    assert_eq!(
        wrapped,
        [
            0x04, 0x20, 0x00, 0x01, 0x18, 0x43, 0x29, 0x27, 0x2E, 0x26, 0x50, 0x7A, 0x3A, 0xB2,
            0xB3, 0x24, 0x63, 0xBD, 0x97, 0x23, 0xA3, 0xEC, 0x4A, 0x43, 0xFB, 0xD5, 0xD8, 0x9C,
            0x7B,
        ]
    );
}

#[test]
fn apdu_pkcs1_signature_block_has_expected_layout() {
    let block = pkcs1_v15_signature_block(b"abc").unwrap();
    assert_eq!(&block[..2], &[0x00, 0x01]);
    assert!(block[2..252].iter().all(|b| *b == 0xFF));
    assert_eq!(&block[252..], &[0x00, b'a', b'b', b'c']);
}

#[test]
fn pin_protection_mac_and_ciphertext_lengths() {
    let iv = [0x01, 0x02, 0x03, 0x04, 0x05, 0x06, 0x07, 0x08];
    let pin = [b'1', b'2', b'3', b'4', b'5', b'6', 0xFF, 0xFF, 0xFF, 0xFF];
    let mac = tdes_cbc_mac(&SECURE_PIN_KEY, &iv, &pin).unwrap();
    assert_eq!(mac.len(), 8);
    let mut protected = pin.to_vec();
    protected.extend_from_slice(&mac);
    let encrypted = tdes_cbc_encrypt(&SECURE_PIN_KEY, &iv, &protected).unwrap();
    assert_eq!(encrypted.len(), 24);
    let again = tdes_cbc_encrypt(&SECURE_PIN_KEY, &iv, &protected).unwrap();
    assert_eq!(encrypted, again);
}

#[test]
fn gen1_pkcs1_signature_block_has_expected_layout() {
    let block = pkcs1_v15_signature_block(b"abc").unwrap();
    assert_eq!(&block[..2], &[0x00, 0x01]);
    assert!(block[2..252].iter().all(|b| *b == 0xFF));
    assert_eq!(&block[252..], &[0x00, b'a', b'b', b'c']);
}

#[test]
fn pkcs1_type2_unpad_extracts_message() {
    let mut block = [0xAAu8; RSA_BLOCK_LEN];
    block[0] = 0x00;
    block[1] = 0x02;
    let msg = b"openhicos-decrypt-test";
    let separator = RSA_BLOCK_LEN - msg.len() - 1;
    block[separator] = 0x00;
    block[separator + 1..].copy_from_slice(msg);
    assert_eq!(pkcs1_v15_unpad_type2(&block).unwrap(), msg);
}

#[test]
fn diverse_matches_known_card_keys() {
    let card_id = [0x24, 0x05, 0x69, 0x64, 0x13, 0x00, 0x01, 0x90, 0x39, 0x57];
    let master = aes_ecb_decrypt(&DIVERSE_KEK, &MASTER_ENC_BLOB_16);
    let enc = derive_key(&master, 0x04, &card_id, &ISD_CM_AID, 16).unwrap();
    let mac = derive_key(&master, 0x06, &card_id, &ISD_CM_AID, 16).unwrap();
    assert_eq!(
        enc,
        [
            0xab, 0x9c, 0x3c, 0x08, 0x3f, 0xe6, 0x3f, 0x48, 0x37, 0x57, 0xda, 0x8e, 0x4f, 0xea,
            0xf1, 0xbb
        ]
    );
    assert_eq!(
        mac,
        [
            0x32, 0x76, 0x2e, 0x98, 0x42, 0x30, 0x9b, 0x5a, 0x3a, 0xc3, 0x7c, 0xc3, 0x4f, 0x20,
            0x77, 0x59
        ]
    );
}

#[test]
fn scp03_verify_wrap_matches_trace() {
    let k_enc = [
        0xab, 0x9c, 0x3c, 0x08, 0x3f, 0xe6, 0x3f, 0x48, 0x37, 0x57, 0xda, 0x8e, 0x4f, 0xea, 0xf1,
        0xbb,
    ];
    let k_mac = [
        0x32, 0x76, 0x2e, 0x98, 0x42, 0x30, 0x9b, 0x5a, 0x3a, 0xc3, 0x7c, 0xc3, 0x4f, 0x20, 0x77,
        0x59,
    ];
    let host = [0xD4, 0x05, 0xEC, 0x4C, 0xDC, 0x43, 0xCF, 0x8D];
    let card_chal = [0x03, 0x61, 0xBB, 0x15, 0xA8, 0xB6, 0x8C, 0x2E];
    let mut context = Vec::new();
    context.extend_from_slice(&host);
    context.extend_from_slice(&card_chal);
    let s_mac = scp03_kdf(&k_mac, 0x06, &context, 0x80);
    let s_enc = scp03_kdf(&k_enc, 0x04, &context, 0x80);
    let host_crypto = scp03_kdf(&s_mac, 0x01, &context, 0x40);
    let mut mac_input = vec![0u8; 16];
    mac_input.extend_from_slice(&[0x84, 0x82, 0x03, 0x00, 0x10]);
    mac_input.extend_from_slice(&host_crypto);
    let mcv = gen2::aes_cmac(&s_mac, &mac_input);

    let mut sess = gen2::Scp03Session {
        s_enc,
        s_mac,
        mcv,
        enc_counter: 1,
        open: true,
    };
    let mut pin = b"000000".to_vec();
    while pin.len() < 10 {
        pin.push(0xff);
    }
    let cmd = wrap_command(&mut sess, 0x00, 0x20, 0x00, 0x01, &pin, None, true);
    assert_eq!(
        &cmd[5..],
        &[
            0xC5, 0xB3, 0xBE, 0x9F, 0x58, 0x3A, 0x7E, 0xED, 0xC0, 0xA3, 0x11, 0x12, 0x43, 0x89,
            0xA4, 0x97, 0xE6, 0xEB, 0x39, 0x52, 0xA4, 0x0B, 0xC3, 0x0D
        ]
    );
}
