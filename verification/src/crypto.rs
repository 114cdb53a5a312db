//! Block ciphers, MACs, digests, big-number exponentiation and randomness,
//! as provided by the RustCrypto, num-bigint and getrandom crates.
//!
//! Each function here makes one outside call. Their results are named by
//! uninterpreted spec functions: verified code relies only on the result being
//! a function of the arguments (and on its length, which the array types fix).

use aes::Aes128;
use cipher::{BlockDecrypt, BlockEncrypt, KeyInit};
use cmac::{Cmac, Mac};
use des::TdesEde2;
use crate::der::be_value;
use sha2::Digest;
use vstd::arithmetic::power::pow;
use vstd::prelude::*;

verus! {

/// AES-128 encryption of one 16-byte block.
pub uninterp spec fn aes128_encrypt_value(key: Seq<u8>, block: Seq<u8>) -> Seq<u8>;

/// AES-128 decryption of one 16-byte block.
pub uninterp spec fn aes128_decrypt_value(key: Seq<u8>, block: Seq<u8>) -> Seq<u8>;

/// Two-key triple DES (EDE) encryption of one 8-byte block.
pub uninterp spec fn tdes_ede2_encrypt_value(key: Seq<u8>, block: Seq<u8>) -> Seq<u8>;

/// AES-128 CMAC (NIST SP 800-38B) tag of a message.
pub uninterp spec fn cmac_aes128_value(key: Seq<u8>, data: Seq<u8>) -> Seq<u8>;

/// MD5 digest.
pub uninterp spec fn md5_value(data: Seq<u8>) -> Seq<u8>;

/// SHA-1 digest.
pub uninterp spec fn sha1_value(data: Seq<u8>) -> Seq<u8>;

/// SHA-256 digest.
pub uninterp spec fn sha256_value(data: Seq<u8>) -> Seq<u8>;

/// SHA-384 digest.
pub uninterp spec fn sha384_value(data: Seq<u8>) -> Seq<u8>;

/// SHA-512 digest.
pub uninterp spec fn sha512_value(data: Seq<u8>) -> Seq<u8>;

/// Calls `Aes128::encrypt_block` (aes crate) under the 16-byte `key` on the
/// 16-byte `block`; the result is the named AES-128 encryption, one block long.
#[verifier::external_body]
pub(crate) fn aes128_encrypt(key: &[u8], block: &[u8]) -> (r: Vec<u8>)
    requires
        key@.len() == 16,
        block@.len() == 16,
    ensures
        r@ == aes128_encrypt_value(key@, block@),
        r@.len() == 16,
{
    let cipher = Aes128::new(aes::cipher::generic_array::GenericArray::from_slice(key));
    let mut b = aes::Block::clone_from_slice(block);
    cipher.encrypt_block(&mut b);
    b.to_vec()
}

/// Calls `Aes128::decrypt_block` (aes crate) under the 16-byte `key` on the
/// 16-byte `block`; the result is the named AES-128 decryption, one block long.
#[verifier::external_body]
pub(crate) fn aes128_decrypt(key: &[u8], block: &[u8]) -> (r: Vec<u8>)
    requires
        key@.len() == 16,
        block@.len() == 16,
    ensures
        r@ == aes128_decrypt_value(key@, block@),
        r@.len() == 16,
{
    let cipher = Aes128::new(aes::cipher::generic_array::GenericArray::from_slice(key));
    let mut b = aes::Block::clone_from_slice(block);
    cipher.decrypt_block(&mut b);
    b.to_vec()
}

/// Calls `TdesEde2::encrypt_block` (des crate) under the 16-byte two-key
/// `key` on the 8-byte `block`; the result is the named encryption, one
/// block long.
#[verifier::external_body]
pub(crate) fn tdes_ede2_encrypt(key: &[u8], block: &[u8]) -> (r: Vec<u8>)
    requires
        key@.len() == 16,
        block@.len() == 8,
    ensures
        r@ == tdes_ede2_encrypt_value(key@, block@),
        r@.len() == 8,
{
    let cipher = TdesEde2::new(des::cipher::generic_array::GenericArray::from_slice(key));
    let mut b = des::cipher::generic_array::GenericArray::clone_from_slice(block);
    cipher.encrypt_block(&mut b);
    b.to_vec()
}

/// Calls `Cmac::<Aes128>` (cmac crate): keyed with the 16-byte `key`, fed
/// `data`, finalized; the result is the named 16-byte CMAC tag.
#[verifier::external_body]
pub(crate) fn cmac_aes128(key: &[u8], data: &[u8]) -> (r: Vec<u8>)
    requires
        key@.len() == 16,
    ensures
        r@ == cmac_aes128_value(key@, data@),
        r@.len() == 16,
{
    let mut mac = <Cmac<Aes128> as KeyInit>::new(cipher::generic_array::GenericArray::from_slice(key));
    mac.update(data);
    mac.finalize().into_bytes().to_vec()
}

/// Calls `Md5::digest` (md-5 crate); the result is the named MD5 digest.
#[verifier::external_body]
pub(crate) fn md5(data: &[u8]) -> (r: [u8; 16])
    ensures
        r@ == md5_value(data@),
{
    let mut out = [0u8; 16];
    out.copy_from_slice(&md5::Md5::digest(data));
    out
}

/// Calls `Sha1::digest` (sha1 crate); the result is the named SHA-1 digest.
#[verifier::external_body]
pub(crate) fn sha1(data: &[u8]) -> (r: [u8; 20])
    ensures
        r@ == sha1_value(data@),
{
    let mut out = [0u8; 20];
    out.copy_from_slice(&sha1::Sha1::digest(data));
    out
}

/// Calls `Sha256::digest` (sha2 crate); the result is the named digest.
#[verifier::external_body]
pub(crate) fn sha256(data: &[u8]) -> (r: [u8; 32])
    ensures
        r@ == sha256_value(data@),
{
    let mut out = [0u8; 32];
    out.copy_from_slice(&sha2::Sha256::digest(data));
    out
}

/// Calls `Sha384::digest` (sha2 crate); the result is the named digest.
#[verifier::external_body]
pub(crate) fn sha384(data: &[u8]) -> (r: [u8; 48])
    ensures
        r@ == sha384_value(data@),
{
    let mut out = [0u8; 48];
    out.copy_from_slice(&sha2::Sha384::digest(data));
    out
}

/// Calls `Sha512::digest` (sha2 crate); the result is the named digest.
#[verifier::external_body]
pub(crate) fn sha512(data: &[u8]) -> (r: [u8; 64])
    ensures
        r@ == sha512_value(data@),
{
    let mut out = [0u8; 64];
    out.copy_from_slice(&sha2::Sha512::digest(data));
    out
}

/// Calls `getrandom::fill`, which overwrites `dest` with random bytes from
/// the operating system, and reports whether it succeeded. Only the length of
/// the buffer is stated to be kept.
#[verifier::external_body]
pub(crate) fn fill_random(dest: &mut [u8]) -> (ok: bool)
    ensures
        final(dest)@.len() == old(dest)@.len(),
{
    getrandom::fill(dest).is_ok()
}

/// Builds `BigUint::from_bytes_be` of both strings (big-endian, as its
/// documentation says) and compares them with `>=`: whether the value of `a`
/// is at least that of `b`.
#[verifier::external_body]
pub(crate) fn biguint_ge(a: &[u8], b: &[u8]) -> (r: bool)
    ensures
        r == (be_value(a@) >= be_value(b@)),
{
    num_bigint::BigUint::from_bytes_be(a) >= num_bigint::BigUint::from_bytes_be(b)
}

/// Builds `BigUint::from_bytes_be` of `a` and compares it with
/// `BigUint::from(0u8)`: whether its value is zero.
#[verifier::external_body]
pub(crate) fn biguint_is_zero(a: &[u8]) -> (r: bool)
    ensures
        r == (be_value(a@) == 0),
{
    num_bigint::BigUint::from_bytes_be(a) == num_bigint::BigUint::from(0u8)
}

/// Calls `BigUint::modpow` on the big-endian values of the three strings
/// and returns `to_bytes_be` of the result: `(base ^ exponent) % modulus`,
/// as the documentation says, in its shortest big-endian form (one zero byte
/// for zero, otherwise a nonzero first byte, as the source builds it).
/// `modpow` panics on a zero modulus, and its even-modulus path answers one
/// for a zero exponent whatever the modulus, so both are left out.
#[verifier::external_body]
pub(crate) fn biguint_modpow(base: &[u8], exponent: &[u8], modulus: &[u8]) -> (r: Vec<u8>)
    requires
        be_value(modulus@) != 0,
        be_value(exponent@) != 0,
    ensures
        be_value(r@) == pow(be_value(base@) as int, be_value(exponent@)) % (be_value(modulus@) as int),
        r@.len() >= 1,
        r@.len() > 1 ==> r@[0] != 0,
{
    let b = num_bigint::BigUint::from_bytes_be(base);
    let e = num_bigint::BigUint::from_bytes_be(exponent);
    let n = num_bigint::BigUint::from_bytes_be(modulus);
    b.modpow(&e, &n).to_bytes_be()
}

} // verus!
