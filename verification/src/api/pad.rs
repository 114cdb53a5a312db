//! DigestInfo builders and RSA-OAEP decoding (PKCS#1 v2.2).

use super::{Error, OaepHash, Result};
use crate::bytes::{bytes_eq, bytes_to_vec, with_prefix, xor_bytes, xor_vec};
use crate::crypto;
use vstd::prelude::*;

verus! {

/// Length of the digest produced by `alg`.
pub open spec fn digest_len(alg: OaepHash) -> nat {
    match alg {
        OaepHash::Sha1 => 20,
        OaepHash::Sha256 => 32,
        OaepHash::Sha384 => 48,
        OaepHash::Sha512 => 64,
    }
}

/// The digest of `data` under `alg`.
pub open spec fn digest(alg: OaepHash, data: Seq<u8>) -> Seq<u8> {
    let raw = match alg {
        OaepHash::Sha1 => crypto::sha1_value(data),
        OaepHash::Sha256 => crypto::sha256_value(data),
        OaepHash::Sha384 => crypto::sha384_value(data),
        OaepHash::Sha512 => crypto::sha512_value(data),
    };
    Seq::new(digest_len(alg), |i: int| raw[i])
}

/// The four bytes of `c` in big-endian order.
pub open spec fn be32(c: nat) -> Seq<u8> {
    seq![
        ((c / 0x100_0000) % 256) as u8,
        ((c / 0x1_0000) % 256) as u8,
        ((c / 0x100) % 256) as u8,
        (c % 256) as u8,
    ]
}

/// MGF1 mask of length `len`: byte `i` is byte `i mod hLen` of
/// `Hash(seed || be32(i div hLen))`.
pub open spec fn mgf1_mask(alg: OaepHash, seed: Seq<u8>, len: nat) -> Seq<u8> {
    Seq::new(
        len,
        |i: int| digest(alg, seed + be32((i / digest_len(alg) as int) as nat))[i % digest_len(alg) as int],
    )
}

/// Index of the first nonzero byte of `s` at or after `i`, if any.
pub open spec fn first_nonzero_from(s: Seq<u8>, i: int) -> Option<int>
    decreases s.len() - i,
{
    if i < 0 || i >= s.len() {
        None
    } else if s[i] != 0 {
        Some(i)
    } else {
        first_nonzero_from(s, i + 1)
    }
}

/// EME-OAEP decoding of `em` with label `label`; `None` when the encoding is
/// not valid.
pub open spec fn oaep_decoded(alg: OaepHash, label: Seq<u8>, em: Seq<u8>) -> Option<Seq<u8>> {
    let h = digest_len(alg) as int;
    if em.len() < 2 * h + 2 || em[0] != 0 {
        None
    } else {
        let masked_seed = em.subrange(1, 1 + h);
        let masked_db = em.subrange(1 + h, em.len() as int);
        let seed = xor_bytes(masked_seed, mgf1_mask(alg, masked_db, h as nat));
        let db = xor_bytes(masked_db, mgf1_mask(alg, seed, masked_db.len()));
        if db.subrange(0, h) != digest(alg, label) {
            None
        } else {
            match first_nonzero_from(db, h) {
                Some(i) if db[i] == 1 => Some(db.subrange(i + 1, db.len() as int)),
                _ => None,
            }
        }
    }
}

/// DigestInfo prefix for MD5.
pub open spec fn md5_prefix() -> Seq<u8> {
    seq![0x30, 0x20, 0x30, 0x0c, 0x06, 0x08, 0x2a, 0x86, 0x48, 0x86, 0xf7, 0x0d, 0x02, 0x05, 0x05, 0x00, 0x04, 0x10]
}

/// DigestInfo prefix for SHA-1.
pub open spec fn sha1_prefix() -> Seq<u8> {
    seq![0x30, 0x21, 0x30, 0x09, 0x06, 0x05, 0x2b, 0x0e, 0x03, 0x02, 0x1a, 0x05, 0x00, 0x04, 0x14]
}

/// DigestInfo prefix for SHA-256.
pub open spec fn sha256_prefix() -> Seq<u8> {
    seq![0x30, 0x31, 0x30, 0x0d, 0x06, 0x09, 0x60, 0x86, 0x48, 0x01, 0x65, 0x03, 0x04, 0x02, 0x01, 0x05, 0x00, 0x04, 0x20]
}

/// DigestInfo prefix for SHA-384.
pub open spec fn sha384_prefix() -> Seq<u8> {
    seq![0x30, 0x41, 0x30, 0x0d, 0x06, 0x09, 0x60, 0x86, 0x48, 0x01, 0x65, 0x03, 0x04, 0x02, 0x02, 0x05, 0x00, 0x04, 0x30]
}

/// DigestInfo prefix for SHA-512.
pub open spec fn sha512_prefix() -> Seq<u8> {
    seq![0x30, 0x51, 0x30, 0x0d, 0x06, 0x09, 0x60, 0x86, 0x48, 0x01, 0x65, 0x03, 0x04, 0x02, 0x03, 0x05, 0x00, 0x04, 0x40]
}

/// DER prefix of a SHA-256 DigestInfo.
pub const DIGESTINFO_SHA256_PREFIX: [u8; 19] = [
    0x30, 0x31, 0x30, 0x0d, 0x06, 0x09, 0x60, 0x86, 0x48, 0x01, 0x65, 0x03, 0x04, 0x02, 0x01, 0x05,
    0x00, 0x04, 0x20,
];

/// DigestInfo for an MD5 hash.
pub fn digestinfo_md5(hash: &[u8; 16]) -> (out: Vec<u8>)
    ensures
        out@ == md5_prefix() + hash@,
{
    with_prefix(vec![0x30, 0x20, 0x30, 0x0c, 0x06, 0x08, 0x2a, 0x86, 0x48, 0x86, 0xf7, 0x0d, 0x02, 0x05, 0x05, 0x00, 0x04, 0x10], hash)
}

/// DigestInfo for a SHA-1 hash.
pub fn digestinfo_sha1(hash: &[u8; 20]) -> (out: Vec<u8>)
    ensures
        out@ == sha1_prefix() + hash@,
{
    with_prefix(vec![0x30, 0x21, 0x30, 0x09, 0x06, 0x05, 0x2b, 0x0e, 0x03, 0x02, 0x1a, 0x05, 0x00, 0x04, 0x14], hash)
}

/// DigestInfo for a SHA-256 hash.
pub fn digestinfo_sha256(hash: &[u8; 32]) -> (out: Vec<u8>)
    ensures
        out@ == sha256_prefix() + hash@,
{
    with_prefix(vec![0x30, 0x31, 0x30, 0x0d, 0x06, 0x09, 0x60, 0x86, 0x48, 0x01, 0x65, 0x03, 0x04, 0x02, 0x01, 0x05, 0x00, 0x04, 0x20], hash)
}

/// DigestInfo for a SHA-384 hash.
pub fn digestinfo_sha384(hash: &[u8; 48]) -> (out: Vec<u8>)
    ensures
        out@ == sha384_prefix() + hash@,
{
    with_prefix(vec![0x30, 0x41, 0x30, 0x0d, 0x06, 0x09, 0x60, 0x86, 0x48, 0x01, 0x65, 0x03, 0x04, 0x02, 0x02, 0x05, 0x00, 0x04, 0x30], hash)
}

/// DigestInfo for a SHA-512 hash.
pub fn digestinfo_sha512(hash: &[u8; 64]) -> (out: Vec<u8>)
    ensures
        out@ == sha512_prefix() + hash@,
{
    with_prefix(vec![0x30, 0x51, 0x30, 0x0d, 0x06, 0x09, 0x60, 0x86, 0x48, 0x01, 0x65, 0x03, 0x04, 0x02, 0x03, 0x05, 0x00, 0x04, 0x40], hash)
}

/// Digest length of `alg`.
pub fn hash_len(alg: OaepHash) -> (n: usize)
    ensures
        n == digest_len(alg),
{
    match alg {
        OaepHash::Sha1 => 20,
        OaepHash::Sha256 => 32,
        OaepHash::Sha384 => 48,
        OaepHash::Sha512 => 64,
    }
}

/// Digest of `data` under `alg`.
pub fn hash_oaep(alg: OaepHash, data: &[u8]) -> (out: Vec<u8>)
    ensures
        out@ == digest(alg, data@),
{
    let out = match alg {
        OaepHash::Sha1 => bytes_to_vec(&crypto::sha1(data)),
        OaepHash::Sha256 => bytes_to_vec(&crypto::sha256(data)),
        OaepHash::Sha384 => bytes_to_vec(&crypto::sha384(data)),
        OaepHash::Sha512 => bytes_to_vec(&crypto::sha512(data)),
    };
    assert(out@ =~= digest(alg, data@));
    out
}


/// Whether an MGF1 mask of `len` bytes needs no more than 2^32 - 1 digest
/// blocks, the counter range the mask generator accepts.
pub open spec fn mgf1_fits(alg: OaepHash, len: nat) -> bool {
    len <= 0xFFFF_FFFF * digest_len(alg)
}

/// EME-OAEP encoding of `msg` into `k` bytes with label `label` and the given
/// random `seed`.
pub open spec fn oaep_encoded(alg: OaepHash, label: Seq<u8>, k: nat, msg: Seq<u8>, seed: Seq<u8>) -> Seq<u8> {
    let h = digest_len(alg) as int;
    let db = digest(alg, label) + Seq::new((k - msg.len() - 2 * h - 2) as nat, |i: int| 0u8)
        + seq![1u8] + msg;
    let masked_db = xor_bytes(db, mgf1_mask(alg, seed, db.len()));
    let masked_seed = xor_bytes(seed, mgf1_mask(alg, masked_db, h as nat));
    seq![0u8] + masked_seed + masked_db
}

fn be32_bytes(c: u32) -> (out: Vec<u8>)
    ensures
        out@ == be32(c as nat),
{
    let out = vec![
        (c / 0x100_0000) as u8,
        ((c / 0x1_0000) % 256) as u8,
        ((c / 0x100) % 256) as u8,
        (c % 256) as u8,
    ];
    assert(out@ =~= be32(c as nat));
    out
}

/// MGF1 mask generation: `length` bytes from `Hash(seed || counter)` blocks.
/// Fails when more than 2^32 - 1 blocks would be needed.
pub fn mgf1(alg: OaepHash, seed: &[u8], length: usize) -> (r: Result<Vec<u8>>)
    ensures
        mgf1_fits(alg, length as nat) ==> (r matches Ok(m) && m@ == mgf1_mask(alg, seed@, length as nat)),
        !mgf1_fits(alg, length as nat) ==> (r matches Err(Error::Internal(_))),
{
    let h = hash_len(alg);
    let mut out: Vec<u8> = Vec::new();
    let mut counter: u32 = 0;
    while out.len() < length
        invariant
            h == digest_len(alg),
            16 <= h <= 64,
            out@.len() == counter as int * h,
            out@.len() <= length + 64,
            forall|i: int| #![trigger out@[i]] 0 <= i < out@.len() ==>
                out@[i] == digest(alg, seed@ + be32((i / h as int) as nat))[i % h as int],
        decreases length + 64 - out@.len(),
    {
        let ghost before = out@;
        let mut block = bytes_to_vec(seed);
        let cb = be32_bytes(counter);
        block.extend_from_slice(&cb);
        assert(block@ =~= seed@ + be32(counter as nat));
        let d = hash_oaep(alg, &block);
        assert(d@.len() == h);
        out.extend_from_slice(&d);
        assert forall|i: int| #![trigger out@[i]] 0 <= i < out@.len() implies
            out@[i] == digest(alg, seed@ + be32((i / h as int) as nat))[i % h as int] by {
            if i >= before.len() {
                vstd::arithmetic::div_mod::lemma_fundamental_div_mod_converse(
                    i, h as int, counter as int, i - counter as int * h,
                );
            } else {
                assert(out@[i] == before[i]);
            }
        }
        if counter == u32::MAX {
            assert(!mgf1_fits(alg, length as nat)) by (nonlinear_arith)
                requires
                    before.len() == counter as int * h,
                    before.len() < length,
                    counter == 0xFFFF_FFFF,
                    h == digest_len(alg),
            ;
            return Err(Error::Internal("MGF1 counter overflow".to_owned()));
        }
        counter += 1;
        assert(out@.len() == counter as int * h) by (nonlinear_arith)
            requires
                out@.len() == before.len() + h,
                before.len() == (counter - 1) as int * h,
        ;
    }
    assert(mgf1_fits(alg, length as nat)) by (nonlinear_arith)
        requires
            out@.len() == counter as int * h,
            length <= out@.len(),
            counter <= 0xFFFF_FFFF,
            h == digest_len(alg),
    ;
    out.truncate(length);
    assert(out@ =~= mgf1_mask(alg, seed@, length as nat));
    Ok(out)
}

pub proof fn lemma_first_nonzero_skip(s: Seq<u8>, a: int, b: int)
    requires
        0 <= a <= b,
        forall|j: int| a <= j < b ==> s[j] == 0,
        b <= s.len(),
    ensures
        first_nonzero_from(s, a) == first_nonzero_from(s, b),
    decreases b - a,
{
    if a < b {
        lemma_first_nonzero_skip(s, a + 1, b);
    }
}

/// EME-OAEP decoding (RFC 8017 7.1.2 steps 3 and 4) of the block `em`.
pub fn oaep_decode(alg: OaepHash, label: &[u8], em: &[u8]) -> (r: Result<Vec<u8>>)
    ensures
        em@.len() < 2 * digest_len(alg) + 2 || em@[0] != 0 ==> (r matches Err(Error::DecryptFailed)),
        em@.len() >= 2 * digest_len(alg) + 2 && em@[0] == 0 && !mgf1_fits(alg, (em@.len() - 1 - digest_len(alg)) as nat)
            ==> (r matches Err(Error::Internal(_))),
        em@.len() >= 2 * digest_len(alg) + 2 && em@[0] == 0 && mgf1_fits(alg, (em@.len() - 1 - digest_len(alg)) as nat)
            ==> match oaep_decoded(alg, label@, em@) {
                Some(m) => r matches Ok(v) && v@ == m,
                None => r matches Err(Error::DecryptFailed),
            },
{
    let h = hash_len(alg);
    if em.len() < 2 * h + 2 || em[0] != 0 {
        return Err(Error::DecryptFailed);
    }
    let masked_seed = vstd::slice::slice_subrange(em, 1, 1 + h);
    let masked_db = vstd::slice::slice_subrange(em, 1 + h, em.len());
    let seed_mask = match mgf1(alg, masked_db, h) {
        Ok(m) => m,
        Err(e) => return Err(e),
    };
    let seed = xor_vec(masked_seed, &seed_mask);
    let db_mask = match mgf1(alg, &seed, masked_db.len()) {
        Ok(m) => m,
        Err(e) => return Err(e),
    };
    let db = xor_vec(masked_db, &db_mask);
    let lhash = hash_oaep(alg, label);
    if db.len() < h || !bytes_eq(vstd::slice::slice_subrange(db.as_slice(), 0, h), &lhash) {
        return Err(Error::DecryptFailed);
    }
    let mut i = h;
    while i < db.len() && db[i] == 0
        invariant
            h <= i <= db@.len(),
            forall|j: int| h <= j < i ==> db@[j] == 0,
        decreases db@.len() - i,
    {
        i += 1;
    }
    proof {
        lemma_first_nonzero_skip(db@, h as int, i as int);
    }
    if i >= db.len() || db[i] != 0x01 {
        return Err(Error::DecryptFailed);
    }
    Ok(bytes_to_vec(vstd::slice::slice_subrange(db.as_slice(), i + 1, db.len())))
}

/// EME-OAEP encoding (RFC 8017 7.1.1 step 2) of `message` into
/// `modulus_len` bytes, using `seed` as the random seed.
pub fn oaep_encode_with_seed(
    alg: OaepHash,
    label: &[u8],
    modulus_len: usize,
    message: &[u8],
    seed: &[u8],
) -> (r: core::result::Result<Vec<u8>, ()>)
    requires
        seed@.len() == digest_len(alg),
    ensures
        message@.len() + 2 * digest_len(alg) + 2 > modulus_len ==> r is Err,
        message@.len() + 2 * digest_len(alg) + 2 <= modulus_len && !mgf1_fits(alg, (modulus_len - digest_len(alg) - 1) as nat)
            ==> r is Err,
        message@.len() + 2 * digest_len(alg) + 2 <= modulus_len && mgf1_fits(alg, (modulus_len - digest_len(alg) - 1) as nat)
            ==> (r matches Ok(em) && em@ == oaep_encoded(alg, label@, modulus_len as nat, message@, seed@)),
{
    let h = hash_len(alg);
    if message.len() > modulus_len || modulus_len - message.len() < 2 * h + 2 {
        return Err(());
    }
    let lhash = hash_oaep(alg, label);
    let ps_len = modulus_len - message.len() - 2 * h - 2;
    let mut db = lhash;
    let mut k: usize = 0;
    while k < ps_len
        invariant
            k <= ps_len,
            db@ == digest(alg, label@) + Seq::new(k as nat, |i: int| 0u8),
        decreases ps_len - k,
    {
        db.push(0);
        k += 1;
        assert(db@ =~= digest(alg, label@) + Seq::new(k as nat, |i: int| 0u8));
    }
    db.push(0x01);
    db.extend_from_slice(message);
    assert(db@ =~= digest(alg, label@) + Seq::new(ps_len as nat, |i: int| 0u8) + seq![1u8] + message@);
    let db_mask = match mgf1(alg, seed, db.len()) {
        Ok(m) => m,
        Err(_) => return Err(()),
    };
    let masked_db = xor_vec(&db, &db_mask);
    let seed_mask = match mgf1(alg, &masked_db, h) {
        Ok(m) => m,
        Err(_) => return Err(()),
    };
    let masked_seed = xor_vec(seed, &seed_mask);
    let mut em: Vec<u8> = Vec::new();
    em.push(0x00);
    em.extend_from_slice(&masked_seed);
    em.extend_from_slice(&masked_db);
    assert(em@ =~= oaep_encoded(alg, label@, modulus_len as nat, message@, seed@));
    Ok(em)
}

proof fn lemma_xor_twice(a: Seq<u8>, b: Seq<u8>)
    requires
        a.len() <= b.len(),
    ensures
        xor_bytes(xor_bytes(a, b), b) =~= a,
{
    assert forall|i: int| 0 <= i < a.len() implies #[trigger] xor_bytes(xor_bytes(a, b), b)[i] == a[i] by {
        let x = a[i];
        let y = b[i];
        assert((x ^ y) ^ y == x) by (bit_vector);
    }
}

/// OAEP decoding recovers the encoded message: for every seed of digest
/// length and every message that fits the modulus, decoding the encoding
/// under the same label gives the message back.
pub proof fn lemma_oaep_roundtrip(alg: OaepHash, label: Seq<u8>, k: nat, msg: Seq<u8>, seed: Seq<u8>)
    requires
        seed.len() == digest_len(alg),
        msg.len() + 2 * digest_len(alg) + 2 <= k,
    ensures
        oaep_decoded(alg, label, oaep_encoded(alg, label, k, msg, seed)) == Some(msg),
{
    let h = digest_len(alg) as int;
    let ps = (k - msg.len() - 2 * h - 2) as nat;
    let db = digest(alg, label) + Seq::new(ps, |i: int| 0u8) + seq![1u8] + msg;
    let masked_db = xor_bytes(db, mgf1_mask(alg, seed, db.len()));
    let masked_seed = xor_bytes(seed, mgf1_mask(alg, masked_db, h as nat));
    let em = oaep_encoded(alg, label, k, msg, seed);
    assert(em =~= seq![0u8] + masked_seed + masked_db);
    assert(em.subrange(1, 1 + h) =~= masked_seed);
    assert(em.subrange(1 + h, em.len() as int) =~= masked_db);
    lemma_xor_twice(seed, mgf1_mask(alg, masked_db, h as nat));
    lemma_xor_twice(db, mgf1_mask(alg, seed, db.len()));
    let db2 = xor_bytes(masked_db, mgf1_mask(alg, seed, masked_db.len()));
    assert(db2 =~= db);
    assert(db.subrange(0, h) =~= digest(alg, label));
    lemma_first_nonzero_skip(db, h, h + ps);
    assert(db[h + ps] == 1u8);
    assert(first_nonzero_from(db, h + ps) == Some(h + ps));
    assert(db.subrange(h + ps + 1, db.len() as int) =~= msg);
}

} // verus!
