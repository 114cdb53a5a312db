use openhicos::api::pad::{
    digestinfo_md5, digestinfo_sha1, digestinfo_sha384, digestinfo_sha512, hash_len, hash_oaep, mgf1, oaep_decode,
    oaep_encode_with_seed,
};
use openhicos::api::{Error, OaepHash};
use openhicos::apdu::pkcs1_v15_unpad_type2;
use openhicos::pkcs11::module;
use openhicos::pkcs11::module::{
    digest_info_for_hash_mech, emsa_pkcs1_v15, is_hash_rsa_pkcs, pkcs1_v15_encrypt_block, rsa_public_crypt,
    verify_rsa_pkcs1_v15, verify_rsa_x509,
};
use openhicos::pkcs11::types::{
    CKM_MD5_RSA_PKCS, CKM_RSA_PKCS, CKM_SHA1_RSA_PKCS, CKM_SHA256, CKM_SHA256_RSA_PKCS, CKM_SHA_1, CKR_ARGUMENTS_BAD,
    CKR_DATA_LEN_RANGE, CKR_ENCRYPTED_DATA_INVALID, CKR_MECHANISM_INVALID, CKR_OK, CKR_SIGNATURE_INVALID,
    CKR_SIGNATURE_LEN_RANGE,
};

const N16: [u8; 16] = [0xff, 0xff, 0xff, 0xff, 0xff, 0xff, 0xff, 0x72, 0x00, 0x00, 0x00, 0x00, 0x00, 0x00, 0x13, 0x21];
const E: [u8; 3] = [0x01, 0x00, 0x01];

#[test]
fn oaep_roundtrip_with_a_chosen_seed() {
    let seed = [0x5Au8; 20];
    let em = oaep_encode_with_seed(OaepHash::Sha1, b"label", 128, b"message", &seed).unwrap();
    assert_eq!(em.len(), 128);
    assert_eq!(em[0], 0);
    assert_eq!(oaep_decode(OaepHash::Sha1, b"label", &em).unwrap(), b"message");
    assert!(matches!(oaep_decode(OaepHash::Sha1, b"other", &em), Err(Error::DecryptFailed)));
    let mut flipped = em.clone();
    flipped[0] = 1;
    assert!(matches!(oaep_decode(OaepHash::Sha1, b"label", &flipped), Err(Error::DecryptFailed)));
    assert!(oaep_encode_with_seed(OaepHash::Sha256, b"", 64, b"too long for this", &[0u8; 32]).is_err());
}

#[test]
fn module_oaep_roundtrip_and_refusals() {
    let em = module::oaep_encode(CKM_SHA_1, b"", 64, b"hi").unwrap();
    assert_eq!(em.len(), 64);
    assert_eq!(module::oaep_decode(CKM_SHA_1, b"", &em).unwrap(), b"hi");
    assert_eq!(module::oaep_encode(CKM_RSA_PKCS, b"", 64, b"hi").unwrap_err(), CKR_MECHANISM_INVALID);
    assert_eq!(module::oaep_encode(CKM_SHA256, b"", 64, &[0u8; 40]).unwrap_err(), CKR_DATA_LEN_RANGE);
    assert_eq!(module::oaep_decode(CKM_SHA256, b"", &[0u8; 10]).unwrap_err(), CKR_ENCRYPTED_DATA_INVALID);
    let two = module::oaep_encode(CKM_SHA_1, b"", 64, b"hi").unwrap();
    assert_ne!(em, two);
}

#[test]
fn hashes_and_masks_match_known_values() {
    assert_eq!(hash_len(OaepHash::Sha384), 48);
    assert_eq!(
        hash_oaep(OaepHash::Sha256, b""),
        vec![
            0xe3, 0xb0, 0xc4, 0x42, 0x98, 0xfc, 0x1c, 0x14, 0x9a, 0xfb, 0xf4, 0xc8, 0x99, 0x6f, 0xb9, 0x24, 0x27,
            0xae, 0x41, 0xe4, 0x64, 0x9b, 0x93, 0x4c, 0xa4, 0x95, 0x99, 0x1b, 0x78, 0x52, 0xb8, 0x55
        ]
    );
    assert_eq!(mgf1(OaepHash::Sha1, b"foo", 5).unwrap(), vec![0x1a, 0xc9, 0x07, 0x5c, 0xd4]);
    let mask = mgf1(OaepHash::Sha256, b"bar", 50).unwrap();
    assert_eq!(mask.len(), 50);
    assert_eq!(&mask[..4], &[0x38, 0x25, 0x76, 0xa7]);
    assert_eq!(&mask[46..], &[0xef, 0x04, 0xea, 0xe1]);
    assert_eq!(module::mgf1(CKM_SHA_1, b"foo", 5).unwrap(), vec![0x1a, 0xc9, 0x07, 0x5c, 0xd4]);
    assert_eq!(module::hash_oaep(CKM_SHA256, b"").unwrap(), hash_oaep(OaepHash::Sha256, b""));
}

#[test]
fn digest_infos_carry_their_prefix() {
    assert_eq!(digestinfo_md5(&[0u8; 16]).len(), 34);
    assert_eq!(digestinfo_sha1(&[0u8; 20]).len(), 35);
    assert_eq!(digestinfo_sha384(&[0u8; 48]).len(), 67);
    assert_eq!(&digestinfo_sha512(&[7u8; 64])[19..], &[7u8; 64]);
    let di = digest_info_for_hash_mech(CKM_SHA256_RSA_PKCS, b"abc").unwrap();
    assert_eq!(di.len(), 51);
    assert_eq!(&di[19..23], &[0xba, 0x78, 0x16, 0xbf]);
    assert_eq!(digest_info_for_hash_mech(CKM_RSA_PKCS, b"abc").unwrap_err(), CKR_MECHANISM_INVALID);
    assert!(is_hash_rsa_pkcs(CKM_MD5_RSA_PKCS));
    assert!(is_hash_rsa_pkcs(CKM_SHA1_RSA_PKCS));
    assert!(!is_hash_rsa_pkcs(CKM_RSA_PKCS));
}

#[test]
fn type2_blocks_unpad_to_their_message() {
    let em = pkcs1_v15_encrypt_block(256, b"payload").unwrap();
    assert_eq!(pkcs1_v15_unpad_type2(&em).unwrap(), b"payload");
    assert_eq!(pkcs1_v15_encrypt_block(16, b"123456").unwrap_err(), CKR_DATA_LEN_RANGE);
    let mut bad = em.clone();
    bad[1] = 0x01;
    assert!(pkcs1_v15_unpad_type2(&bad).is_err());
    assert!(pkcs1_v15_unpad_type2(&em[..255]).is_err());
    assert_eq!(emsa_pkcs1_v15(b"123456", 16).unwrap_err(), CKR_DATA_LEN_RANGE);
}

#[test]
fn rsa_public_operation_on_small_keys() {
    assert_eq!(rsa_public_crypt(&[0x0C, 0xA1], &[0x11], &[0x00, 0x41]).unwrap(), vec![0x0A, 0xE6]);
    assert_eq!(rsa_public_crypt(&[0x0C, 0xA1], &[0x11], &[0x00, 0x01]).unwrap(), vec![0x00, 0x01]);
    assert_eq!(rsa_public_crypt(&[0x0C, 0xA1], &[0x11], &[0x0C, 0xA1]).unwrap_err(), CKR_DATA_LEN_RANGE);
    assert_eq!(rsa_public_crypt(&[0x0C, 0xA1], &[0x00], &[0x00, 0x01]).unwrap_err(), CKR_DATA_LEN_RANGE);
    assert_eq!(rsa_public_crypt(&[0x0C, 0xA1], &[0x11], &[0x01]).unwrap_err(), CKR_ARGUMENTS_BAD);
    assert_eq!(rsa_public_crypt(&[], &[0x11], &[]).unwrap_err(), CKR_ARGUMENTS_BAD);
    let c = rsa_public_crypt(&N16, &E, &[0, 1, 2, 3, 4, 5, 6, 7, 8, 9, 10, 11, 12, 13, 14, 15]).unwrap();
    assert_eq!(
        c,
        vec![0xb2, 0x14, 0x9a, 0x0f, 0x57, 0x95, 0x6b, 0x32, 0xd4, 0x78, 0x3b, 0x26, 0xbf, 0xb0, 0xb4, 0x38]
    );
}

#[test]
fn signatures_verify_against_the_public_key() {
    let sig = [0x17, 0x62, 0x65, 0x13, 0x37, 0x51, 0x29, 0x1b, 0x7e, 0xab, 0x19, 0x06, 0xd1, 0xff, 0xe3, 0x69];
    assert_eq!(verify_rsa_pkcs1_v15(&N16, &E, b"abc", &sig), CKR_OK);
    assert_eq!(verify_rsa_pkcs1_v15(&N16, &E, b"abd", &sig), CKR_SIGNATURE_INVALID);
    assert_eq!(verify_rsa_pkcs1_v15(&N16, &E, b"abc", &sig[1..]), CKR_SIGNATURE_LEN_RANGE);
    assert_eq!(verify_rsa_pkcs1_v15(&N16, &E, b"abcdef", &sig), CKR_DATA_LEN_RANGE);
    assert_eq!(verify_rsa_pkcs1_v15(&N16, &E, b"abc", &N16), CKR_SIGNATURE_INVALID);

    let raw_sig = [0x28, 0x65, 0xdf, 0xf2, 0x14, 0xed, 0xd7, 0x90, 0xaf, 0xf5, 0xbf, 0xf3, 0x6d, 0xce, 0xbc, 0x6c];
    let mut data = [0u8; 16];
    data[15] = 0x41;
    assert_eq!(verify_rsa_x509(&N16, &E, &data, &raw_sig), CKR_OK);
    data[15] = 0x42;
    assert_eq!(verify_rsa_x509(&N16, &E, &data, &raw_sig), CKR_SIGNATURE_INVALID);
    assert_eq!(verify_rsa_x509(&N16, &E, &data[1..], &raw_sig), CKR_DATA_LEN_RANGE);
    assert_eq!(verify_rsa_x509(&N16, &E, &data, &raw_sig[1..]), CKR_SIGNATURE_LEN_RANGE);
}
