use openhicos::apdu::{pin_block, pin_result_sw, Flow, PinResult};
use openhicos::bytes::{pad80, sub_vec, with_prefix, xor_vec};
use openhicos::der::{enter, get_bytes, next};
use openhicos::p15::{
    apply_usage, be_uint, extract_rsa_from_spki, modulus_bit_len, parse_aodf_pin, parse_tokeninfo, records_end,
    reverse_words, trim_leading_zeros, trim_padding, Token, TokenObject, USAGE_DECRYPT, USAGE_SIGN, USAGE_UNWRAP,
};
use openhicos::pcsc::{exchange, parse_sw};
use openhicos::text::copy_label;

#[test]
fn der_elements_decode_with_short_and_long_lengths() {
    let data = [0x04, 0x02, 0xAA, 0xBB, 0x30, 0x81, 0x01, 0x05];
    let (t, n) = next(&data, 0).unwrap();
    assert_eq!(t.tag, 0x04);
    assert_eq!(t.hdr_len, 2);
    assert_eq!(t.val, &[0xAA, 0xBB]);
    assert_eq!(t.val_off, 2);
    assert_eq!(n, 4);
    let (u, n2) = next(&data, n).unwrap();
    assert_eq!(u.tag, 0x30);
    assert_eq!(u.hdr_len, 3);
    assert_eq!(u.val, &[0x05]);
    assert_eq!(n2, 8);
    assert_eq!(u.full_slice(&data), &data[4..]);
    assert!(next(&data, 8).is_err());
    assert!(next(&[0x04, 0x05, 0x00], 0).is_err());
    assert!(next(&[0x04, 0x80], 0).is_err());
    let tagged = [0x1F, 0x22, 0x01, 0x07];
    let (v, _) = next(&tagged, 0).unwrap();
    assert_eq!(v.tag, 0x1F22);
    assert_eq!(enter(&u).unwrap(), &[0x05]);
    assert!(enter(&t).is_err());
    let bits = [0x03, 0x03, 0x00, 0x12, 0x34];
    let (b, _) = next(&bits, 0).unwrap();
    assert_eq!(get_bytes(&b).unwrap(), &[0x12, 0x34]);
    assert_eq!(get_bytes(&t).unwrap(), &[0xAA, 0xBB]);
}

#[test]
fn byte_helpers() {
    assert_eq!(with_prefix(vec![1, 2], &[3]), vec![1, 2, 3]);
    assert_eq!(xor_vec(&[0xF0, 0x0F, 0xFF], &[0xFF, 0xFF]), vec![0x0F, 0xF0]);
    assert_eq!(sub_vec(&[1, 2, 3, 4], 1, 3), vec![2, 3]);
    let p = pad80(&[0xAB; 15]);
    assert_eq!(p.len(), 16);
    assert_eq!(p[15], 0x80);
    let q = pad80(&[0xAB; 16]);
    assert_eq!(q.len(), 32);
    assert_eq!(q[16], 0x80);
    assert!(q[17..].iter().all(|&b| b == 0));
}

#[test]
fn pin_blocks_and_answers() {
    assert_eq!(pin_block(b"1234"), vec![b'1', b'2', b'3', b'4', 0xFF, 0xFF, 0xFF, 0xFF, 0xFF, 0xFF]);
    assert_eq!(pin_result_sw(0x9000), PinResult::Verified);
    assert_eq!(pin_result_sw(0x6983), PinResult::Locked);
    assert_eq!(pin_result_sw(0x63C1), PinResult::Incorrect);
    assert_eq!(pin_result_sw(0x6A82), PinResult::Error);
}

#[test]
fn labels_drop_padding_and_controls() {
    assert_eq!(copy_label(b"My Card  \x00\xFF\xFF"), "My Card");
    assert_eq!(copy_label(b"a\x01b"), "ab");
    assert_eq!(copy_label(&[0xFF, 0xFF]), "");
    assert_eq!(copy_label(&[b'x', 0xC3]), "x\u{FFFD}");
}

#[test]
fn status_words_and_t0_exchanges() {
    assert_eq!(parse_sw(&[0x01, 0x90, 0x00]), (0x90, 0x00));
    assert_eq!(parse_sw(&[0x90]), (0, 0));

    let cmd = [0x00, 0xB0, 0x00, 0x00, 0x00];
    match exchange(&cmd, &[], 0) {
        Flow::Transmit(c) => assert_eq!(c, cmd),
        Flow::Done(..) => panic!("expected the command"),
    }
    let raw = vec![Some(vec![0x6C, 0x04])];
    match exchange(&cmd, &raw, 0) {
        Flow::Transmit(c) => assert_eq!(c, vec![0x00, 0xB0, 0x00, 0x00, 0x04]),
        Flow::Done(..) => panic!("expected the repeated command"),
    }
    let raw = vec![Some(vec![0xAA, 0x61, 0x02])];
    match exchange(&cmd, &raw, 0) {
        Flow::Transmit(c) => assert_eq!(c, vec![0x00, 0xC0, 0x00, 0x00, 0x02]),
        Flow::Done(..) => panic!("expected GET RESPONSE"),
    }
    let raw = vec![Some(vec![0xAA, 0x61, 0x02]), Some(vec![0xBB, 0xCC, 0x90, 0x00])];
    match exchange(&cmd, &raw, 0) {
        Flow::Done(Ok((sw, data)), n) => {
            assert_eq!(sw, 0x9000);
            assert_eq!(data, vec![0xAA, 0xBB, 0xCC]);
            assert_eq!(n, 2);
        },
        _ => panic!("expected the collected answer"),
    }
    match exchange(&cmd, &[None], 0) {
        Flow::Done(Err(()), 1) => {},
        _ => panic!("expected a transport failure"),
    }
}

#[test]
fn key_material_helpers() {
    let mut buf = vec![1, 2, 0, 0xFF, 0x00];
    trim_padding(&mut buf);
    assert_eq!(buf, vec![1, 2]);
    assert_eq!(trim_leading_zeros(&[0, 0, 5, 0]), vec![5, 0]);
    assert_eq!(be_uint(&[0x01, 0x02]), 0x0102);
    assert_eq!(be_uint(&[1, 2, 3, 4, 5, 6, 7, 8, 9]), 0x0102_0304_0506_0708);
    assert_eq!(modulus_bit_len(&[0x00, 0x01, 0x00]), 9);
    assert_eq!(modulus_bit_len(&[0x80, 0x00]), 16);
    assert_eq!(modulus_bit_len(&[0, 0]), 0);
    assert_eq!(reverse_words(&[1, 2, 3, 4, 5, 6, 7, 8, 9]), vec![6, 7, 8, 9, 2, 3, 4, 5, 1]);
    assert_eq!(records_end(&[0x30, 0x01, 0x05, 0x04, 0x00, 0xFF, 0xFF]), Some(5));
    assert_eq!(records_end(&[0x30, 0x01, 0x05]), None);
    assert_eq!(parse_aodf_pin(&[0x30, 0x05, 0x30, 0x03, 0x02, 0x01, 0x81]), Some(0x81));
    assert_eq!(parse_aodf_pin(&[0x04, 0x01, 0x02]), None);

    let mut obj = TokenObject::default();
    apply_usage(USAGE_SIGN | USAGE_UNWRAP, &mut obj);
    assert!(obj.can_sign && obj.can_decrypt && obj.can_unwrap);
    assert!(!obj.can_encrypt && !obj.can_verify && !obj.can_wrap);
    apply_usage(USAGE_DECRYPT, &mut obj);
    assert!(!obj.can_sign && obj.can_decrypt && !obj.can_unwrap);
}

#[test]
fn rsa_keys_come_out_of_a_subject_public_key_info() {
    let spki = [
        0x30, 0x14, 0x30, 0x03, 0x06, 0x01, 0x00, 0x03, 0x0D, 0x00, 0x30, 0x0A, 0x02, 0x04, 0x00, 0xC1, 0x02, 0x03,
        0x02, 0x02, 0x01, 0x00,
    ];
    let (n, e) = extract_rsa_from_spki(&spki).unwrap();
    assert_eq!(n, vec![0xC1, 0x02, 0x03]);
    assert_eq!(e, vec![0x01, 0x00]);
    assert!(extract_rsa_from_spki(&spki[..10]).is_err());
    assert!(extract_rsa_from_spki(&[0x04, 0x00]).is_err());
}

#[test]
fn token_information_sets_manufacturer_and_label() {
    let mut tok = Token::default();
    let info = [0x30, 0x09, 0x0C, 0x03, b'A', b'C', b'M', 0x80, 0x02, b'I', b'D'];
    assert!(parse_tokeninfo(&info, &mut tok).is_ok());
    assert_eq!(tok.manufacturer, "ACM");
    assert_eq!(tok.label, "ID");

    let mut tok = Token::default();
    tok.label = String::new();
    tok.manufacturer = String::new();
    assert!(parse_tokeninfo(&[0x30, 0x00], &mut tok).is_ok());
    assert_eq!(tok.label, "HiCOS PKI Smart Card");
    assert_eq!(tok.manufacturer, "Chunghwa TeleCom Co., Ltd.");
    assert!(parse_tokeninfo(&[0x04, 0x00], &mut tok).is_err());
}
