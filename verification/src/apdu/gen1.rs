//! Gen1 cards (HiCOS V3 / T7S style): CLA `0x80`, VERIFY protected with a
//! fixed two-key 3DES key, RSA through the proprietary `EA` / `C1` commands,
//! public-key records read with P2 = `00`.

use crate::bytes::{bytes_to_vec, xor_bytes, xor_vec};
use crate::crypto;
use super::{
    answered, bytes_with_state, nonempty_ok_data, pin_block, pin_field, pin_result, pin_status,
    pkcs1_v15_signature_block, pkcs1_v15_unpad_type2, reply_is, same_bytes_flow,
    same_bytes_state_flow, same_flow, select_fid, select_mf, spec_select_fid, spec_select_mf,
    take_nonempty_ok, type1_block, type2_message, with_state, CardState, Flow, PinResult, Response,
    SFlow, PIN_MAX, RSA_BLOCK_LEN,
};
use vstd::prelude::*;

verus! {

/// PKCS#7 padding to a multiple of 8 bytes (always at least one byte).
pub open spec fn pkcs7_pad8(data: Seq<u8>) -> Seq<u8> {
    let pad = 8 - data.len() % 8;
    data + Seq::new(pad as nat, |i: int| pad as u8)
}

/// CBC-MAC chaining value after running `data` (whole 8-byte blocks) from `state`.
pub open spec fn tdes_mac_chain(key: Seq<u8>, state: Seq<u8>, data: Seq<u8>) -> Seq<u8>
    decreases data.len(),
{
    if data.len() < 8 {
        state
    } else {
        tdes_mac_chain(
            key,
            crypto::tdes_ede2_encrypt_value(key, xor_bytes(state, data.take(8))),
            data.skip(8),
        )
    }
}

/// 3DES-CBC ciphertext of `data` (whole 8-byte blocks) chained from `prev`.
pub open spec fn tdes_cbc_chain(key: Seq<u8>, prev: Seq<u8>, data: Seq<u8>) -> Seq<u8>
    decreases data.len(),
{
    if data.len() < 8 {
        Seq::empty()
    } else {
        let c = crypto::tdes_ede2_encrypt_value(key, xor_bytes(data.take(8), prev));
        c + tdes_cbc_chain(key, c, data.skip(8))
    }
}

fn pkcs7_padded(data: &[u8]) -> (out: Vec<u8>)
    ensures
        out@ == pkcs7_pad8(data@),
        out@.len() % 8 == 0,
{
    let pad = 8 - (data.len() % 8);
    let mut out = bytes_to_vec(data);
    let mut k: usize = 0;
    while k < pad
        invariant
            k <= pad <= 8,
            pad == 8 - data@.len() % 8,
            out@ == data@ + Seq::new(k as nat, |i: int| pad as u8),
        decreases pad - k,
    {
        out.push(pad as u8);
        k += 1;
        assert(out@ =~= data@ + Seq::new(k as nat, |i: int| pad as u8));
    }
    out
}

/// 3DES CBC-MAC (PKCS#7 padded) of `data` under the two-key `key`, chained
/// from `iv`.
pub fn tdes_cbc_mac(key: &[u8], iv: &[u8], data: &[u8]) -> (r: Result<Vec<u8>, ()>)
    requires
        key@.len() == 16,
        iv@.len() == 8,
    ensures
        r matches Ok(m) && m@ == tdes_mac_chain(key@, iv@, pkcs7_pad8(data@)) && m@.len() == 8,
{
    let padded = pkcs7_padded(data);
    let mut mac = bytes_to_vec(iv);
    let mut i: usize = 0;
    assert(padded@.skip(0) =~= padded@);
    while i < padded.len()
        invariant
            key@.len() == 16,
            padded@.len() % 8 == 0,
            i % 8 == 0,
            i <= padded@.len(),
            mac@.len() == 8,
            tdes_mac_chain(key@, iv@, padded@) == tdes_mac_chain(key@, mac@, padded@.skip(i as int)),
        decreases padded@.len() - i,
    {
        let chunk = vstd::slice::slice_subrange(padded.as_slice(), i, i + 8);
        let blk = xor_vec(&mac, chunk);
        assert(padded@.skip(i as int).take(8) =~= chunk@);
        assert(padded@.skip(i as int).skip(8) =~= padded@.skip(i + 8));
        mac = crypto::tdes_ede2_encrypt(key, &blk);
        i += 8;
    }
    assert(padded@.skip(i as int).len() == 0);
    Ok(mac)
}

/// 3DES-CBC encryption (PKCS#7 padded) of `data` under the two-key `key`
/// with initial vector `iv`: one 8-byte block per whole block of `data` and
/// one more for the padding, the last of them the CBC-MAC of `data` (see
/// [`tdes_cbc_mac`]).
pub fn tdes_cbc_encrypt(key: &[u8], iv: &[u8], data: &[u8]) -> (r: Result<Vec<u8>, ()>)
    requires
        key@.len() == 16,
        iv@.len() == 8,
    ensures
        r matches Ok(c) && c@ == tdes_cbc_chain(key@, iv@, pkcs7_pad8(data@)),
        r matches Ok(c) && c@.len() == 8 * (data@.len() / 8 + 1),
        r matches Ok(c) && c@.subrange(c@.len() - 8, c@.len() as int) == tdes_mac_chain(key@, iv@, pkcs7_pad8(data@)),
{
    let padded = pkcs7_padded(data);
    let mut previous = bytes_to_vec(iv);
    let mut out: Vec<u8> = Vec::new();
    let mut i: usize = 0;
    assert(padded@.skip(0) =~= padded@);
    assert(out@ + tdes_cbc_chain(key@, iv@, padded@) =~= tdes_cbc_chain(key@, iv@, padded@));
    while i < padded.len()
        invariant
            key@.len() == 16,
            padded@.len() % 8 == 0,
            i % 8 == 0,
            i <= padded@.len(),
            previous@.len() == 8,
            out@ + tdes_cbc_chain(key@, previous@, padded@.skip(i as int))
                == tdes_cbc_chain(key@, iv@, padded@),
            out@.len() == i,
            i > 0 ==> out@.subrange(i - 8, i as int) == previous@,
            i == 0 ==> previous@ == iv@,
            tdes_mac_chain(key@, iv@, padded@) == tdes_mac_chain(key@, previous@, padded@.skip(i as int)),
        decreases padded@.len() - i,
    {
        let chunk = vstd::slice::slice_subrange(padded.as_slice(), i, i + 8);
        let blk = xor_vec(chunk, &previous);
        assert(padded@.skip(i as int).take(8) =~= chunk@);
        assert(padded@.skip(i as int).skip(8) =~= padded@.skip(i + 8));
        proof {
            crate::bytes::lemma_xor_commutes(chunk@, previous@);
        }
        let c = crypto::tdes_ede2_encrypt(key, &blk);
        let ghost old_out = out@;
        out.extend_from_slice(&c);
        assert(out@ =~= old_out + c@);
        assert(old_out + (c@ + tdes_cbc_chain(key@, c@, padded@.skip(i + 8)))
            =~= out@ + tdes_cbc_chain(key@, c@, padded@.skip(i + 8)));
        assert(out@.subrange(i as int, i + 8) =~= c@);
        previous = c;
        i += 8;
    }
    assert(padded@.skip(i as int).len() == 0);
    assert(out@ + Seq::<u8>::empty() =~= out@);
    assert(padded@.len() == 8 * (data@.len() / 8 + 1));
    Ok(out)
}


/// Fixed two-key 3DES key protecting VERIFY (`CHTTL8f0HiCardV2`).
pub const SECURE_PIN_KEY: [u8; 16] = [
    0x43, 0x48, 0x54, 0x54, 0x4c, 0x38, 0x66, 0x30, 0x48, 0x69, 0x43, 0x61, 0x72, 0x64, 0x56, 0x32,
];

/// Chunk of the RSA block carried by one `EA` command.
pub const RSA_CHUNK_LEN: usize = 128;

/// SELECT the key EF `0810`: directly, else from the MF through DF `5030`.
pub open spec fn spec_select_key_ef(st: CardState, log: Seq<Option<Response>>, at: int) -> SFlow<(Result<(), ()>, CardState)> {
    match spec_select_fid(st, 0x0810, log, at) {
        SFlow::Transmit(c) => SFlow::Transmit(c),
        SFlow::Done(Ok(()), n) => SFlow::Done((Ok(()), st), n),
        SFlow::Done(Err(()), n) => match spec_select_mf(st, log, n) {
            SFlow::Transmit(c) => SFlow::Transmit(c),
            SFlow::Done((Err(()), s), n2) => SFlow::Done((Err(()), s), n2),
            SFlow::Done((Ok(()), s), n2) => match spec_select_fid(s, 0x5030, log, n2) {
                SFlow::Transmit(c) => SFlow::Transmit(c),
                SFlow::Done(Err(()), n3) => SFlow::Done((Err(()), s), n3),
                SFlow::Done(Ok(()), n3) => with_state(spec_select_fid(s, 0x0810, log, n3), s),
            },
        },
    }
}

pub fn select_key_ef(st: &CardState, log: &[Option<Response>], at: usize) -> (r: Flow<(Result<(), ()>, CardState)>)
    requires
        at <= log@.len(),
    ensures
        same_flow(r, spec_select_key_ef(*st, log@, at as int)),
{
    let n = match select_fid(st, 0x0810, log, at) {
        Flow::Transmit(c) => return Flow::Transmit(c),
        Flow::Done(Ok(()), n) => return Flow::Done((Ok(()), *st), n),
        Flow::Done(Err(()), n) => n,
    };
    let (s, n2) = match select_mf(st, log, n) {
        Flow::Transmit(c) => return Flow::Transmit(c),
        Flow::Done((Err(()), s), n2) => return Flow::Done((Err(()), s), n2),
        Flow::Done((Ok(()), s), n2) => (s, n2),
    };
    let n3 = match select_fid(&s, 0x5030, log, n2) {
        Flow::Transmit(c) => return Flow::Transmit(c),
        Flow::Done(Err(()), n3) => return Flow::Done((Err(()), s), n3),
        Flow::Done(Ok(()), n3) => n3,
    };
    match select_fid(&s, 0x0810, log, n3) {
        Flow::Transmit(c) => Flow::Transmit(c),
        Flow::Done(r, m) => Flow::Done((r, s), m),
    }
}

/// The protected PIN block: PIN field and its CBC-MAC, 3DES-CBC encrypted.
pub open spec fn protected_pin(iv: Seq<u8>, pin: Seq<u8>) -> Seq<u8> {
    let key = SECURE_PIN_KEY@;
    let pf = pin_field(pin);
    let mac = tdes_mac_chain(key, iv, pkcs7_pad8(pf));
    tdes_cbc_chain(key, iv, pkcs7_pad8(pf + mac))
}

/// The protected VERIFY command `8C 20 00 01 Lc IV ciphertext`.
pub open spec fn verify_cmd(iv: Seq<u8>, pin: Seq<u8>) -> Seq<u8> {
    let enc = protected_pin(iv, pin);
    seq![0x8Cu8, 0x20u8, 0x00u8, 0x01u8, ((iv.len() + enc.len()) % 256) as u8] + iv + enc
}

/// Gen1 VERIFY with the random IV `iv` (`None` when no random bytes could
/// be had): select the key EF, then send the protected PIN.
pub open spec fn spec_verify_pin(st: CardState, pin: Seq<u8>, iv: Option<Seq<u8>>, log: Seq<Option<Response>>, at: int)
    -> SFlow<(PinResult, CardState)> {
    if pin.len() == 0 || pin.len() > PIN_MAX {
        SFlow::Done((PinResult::Error, st), at)
    } else {
        match spec_select_key_ef(st, log, at) {
            SFlow::Transmit(c) => SFlow::Transmit(c),
            SFlow::Done((Err(()), s), n) => SFlow::Done((PinResult::Error, s), n),
            SFlow::Done((Ok(()), s), n) => match iv {
                None => SFlow::Done((PinResult::Error, s), n),
                Some(v) => if n >= log.len() {
                    SFlow::Transmit(verify_cmd(v, pin))
                } else {
                    SFlow::Done((pin_status(log[n]), s), n + 1)
                },
            },
        }
    }
}

/// The protected VERIFY command for `pin` under the 8-byte `iv`.
pub fn protected_verify(iv: &[u8], pin: &[u8]) -> (cmd: Vec<u8>)
    requires
        iv@.len() == 8,
        0 < pin@.len() <= PIN_MAX,
    ensures
        cmd@ == verify_cmd(iv@, pin@),
{
    let key = SECURE_PIN_KEY;
    let pinbuf = pin_block(pin);
    let mac = match tdes_cbc_mac(&key, iv, &pinbuf) {
        Ok(m) => m,
        Err(_) => return Vec::new(),
    };
    let mut protected = pinbuf;
    protected.extend_from_slice(&mac);
    assert(protected@ =~= pin_field(pin@) + tdes_mac_chain(key@, iv@, pkcs7_pad8(pin_field(pin@))));
    let encrypted = match tdes_cbc_encrypt(&key, iv, &protected) {
        Ok(e) => e,
        Err(_) => return Vec::new(),
    };
    let lc = ((iv.len() % 256 + encrypted.len() % 256) % 256) as u8;
    proof {
        vstd::arithmetic::div_mod::lemma_add_mod_noop(iv@.len() as int, encrypted@.len() as int, 256);
    }
    let mut cmd = vec![0x8C, 0x20, 0x00, 0x01, lc];
    cmd.extend_from_slice(iv);
    cmd.extend_from_slice(&encrypted);
    assert(key@ == SECURE_PIN_KEY@);
    assert(encrypted@ == protected_pin(iv@, pin@));
    assert(lc == ((iv@.len() + encrypted@.len()) % 256) as u8);
    assert(cmd@ =~= verify_cmd(iv@, pin@));
    cmd
}

/// Gen1 protects VERIFY with 2-key 3DES CBC encryption and a CBC MAC.
/// A clear-text VERIFY is rejected and can consume a PIN retry, so there is
/// no plain fallback.
pub fn verify_pin(
    st: &CardState,
    _pin_ref: u8,
    pin: &[u8],
    iv: &Option<Vec<u8>>,
    log: &[Option<Response>],
    at: usize,
) -> (r: Flow<(PinResult, CardState)>)
    requires
        at <= log@.len(),
        iv matches Some(v) ==> v@.len() == 8,
    ensures
        same_flow(r, spec_verify_pin(*st, pin@, match *iv { Some(v) => Some(v@), None => None }, log@, at as int)),
{
    if pin.len() == 0 || pin.len() > PIN_MAX {
        return Flow::Done((PinResult::Error, *st), at);
    }
    let (s, n) = match select_key_ef(st, log, at) {
        Flow::Transmit(c) => return Flow::Transmit(c),
        Flow::Done((Err(()), s), n) => return Flow::Done((PinResult::Error, s), n),
        Flow::Done((Ok(()), s), n) => (s, n),
    };
    let iv = match iv {
        None => return Flow::Done((PinResult::Error, s), n),
        Some(v) => v,
    };
    if n >= log.len() {
        return Flow::Transmit(protected_verify(iv, pin));
    }
    Flow::Done((pin_result(log, n), s), n + 1)
}

/// `EA` command carrying chunk `index` (0 or 1) of the RSA input.
pub open spec fn ea_cmd(key_ref: u8, index: int, chunk: Seq<u8>) -> Seq<u8> {
    seq![0x80u8, 0xEAu8, if index == 0 { 0x82u8 } else { 0x02u8 }, key_ref, 0x80u8] + chunk
}

/// `C1` continuation read of `want` bytes at `offset` of the result.
pub open spec fn c1_cmd(offset: int, want: int) -> Seq<u8> {
    seq![0x80u8, 0xC1u8, (offset / 256) as u8, (offset % 256) as u8, want as u8]
}

/// Collecting the result with `C1` reads until it is 256 bytes long.
pub open spec fn spec_c1_from(result: Seq<u8>, log: Seq<Option<Response>>, at: int) -> SFlow<Result<Seq<u8>, ()>>
    decreases (if result.len() < RSA_BLOCK_LEN { RSA_BLOCK_LEN - result.len() } else { 0 }),
{
    if result.len() >= RSA_BLOCK_LEN {
        SFlow::Done(if result.len() == RSA_BLOCK_LEN { Ok(result) } else { Err(()) }, at)
    } else {
        let want: int = if RSA_CHUNK_LEN <= RSA_BLOCK_LEN - result.len() { RSA_CHUNK_LEN as int } else {
            RSA_BLOCK_LEN - result.len()
        };
        if at >= log.len() {
            SFlow::Transmit(c1_cmd(result.len() as int, want))
        } else {
            match log[at] {
                None => SFlow::Done(Err(()), at + 1),
                Some(r) => if r.sw != 0x9000 || r.data@.len() == 0 || r.data@.len() > want {
                    SFlow::Done(Err(()), at + 1)
                } else {
                    spec_c1_from(result + r.data@, log, at + 1)
                },
            }
        }
    }
}

/// Sending the two 128-byte halves of `input` with `EA`, from half `index`.
pub open spec fn spec_ea_from(key_ref: u8, input: Seq<u8>, index: int, result: Seq<u8>, log: Seq<Option<Response>>, at: int)
    -> SFlow<Result<Seq<u8>, ()>>
    decreases 2 - index,
{
    if index >= 2 || index < 0 {
        spec_c1_from(result, log, at)
    } else if at >= log.len() {
        SFlow::Transmit(ea_cmd(key_ref, index, input.subrange(128 * index, 128 * index + 128)))
    } else {
        match log[at] {
            Some(r) if r.sw == 0x9000 => spec_ea_from(key_ref, input, index + 1, result + r.data@, log, at + 1),
            _ => SFlow::Done(Err(()), at + 1),
        }
    }
}

/// Proprietary RSA private operation on a 256-byte block: select the key
/// EF, two 128-byte `EA` transfers, then `C1` reads for the rest.
pub open spec fn spec_rsa_private(st: CardState, key_ref: u8, input: Seq<u8>, log: Seq<Option<Response>>, at: int)
    -> SFlow<(Result<Seq<u8>, ()>, CardState)> {
    match spec_select_key_ef(st, log, at) {
        SFlow::Transmit(c) => SFlow::Transmit(c),
        SFlow::Done((Err(()), s), n) => SFlow::Done((Err(()), s), n),
        SFlow::Done((Ok(()), s), n) => bytes_with_state(spec_ea_from(key_ref, input, 0, Seq::empty(), log, n), s),
    }
}

/// The two `EA` transfers of a 256-byte block and the `C1` reads after them.
pub fn ea_exchange(key_ref: u8, input: &[u8], log: &[Option<Response>], at: usize) -> (r: Flow<Result<Vec<u8>, ()>>)
    requires
        at <= log@.len(),
        input@.len() == RSA_BLOCK_LEN,
    ensures
        same_bytes_flow(r, spec_ea_from(key_ref, input@, 0, Seq::empty(), log@, at as int)),
        crate::apdu::flow_within(r, at as int, log@.len() as int),
{
    let mut result: Vec<u8> = Vec::new();
    let mut pos = at;
    let mut index: usize = 0;
    assert(result@ =~= Seq::<u8>::empty());
    while index < 2
        invariant
            index <= 2,
            at <= pos <= log@.len(),
            input@.len() == RSA_BLOCK_LEN,
            spec_ea_from(key_ref, input@, 0, Seq::empty(), log@, at as int)
                == spec_ea_from(key_ref, input@, index as int, result@, log@, pos as int),
        decreases 2 - index,
    {
        if pos >= log.len() {
            let p1: u8 = if index == 0 { 0x82 } else { 0x02 };
            let mut cmd = vec![0x80, 0xEA, p1, key_ref, RSA_CHUNK_LEN as u8];
            let chunk = vstd::slice::slice_subrange(input, 128 * index, 128 * index + 128);
            cmd.extend_from_slice(chunk);
            assert(cmd@ =~= ea_cmd(key_ref, index as int, input@.subrange(128 * index, 128 * index + 128)));
            return Flow::Transmit(cmd);
        }
        match &log[pos] {
            Some(resp) => {
                if resp.sw != 0x9000 {
                    return Flow::Done(Err(()), pos + 1);
                }
                let ghost old_result = result@;
                result.extend_from_slice(&resp.data);
                assert(result@ =~= old_result + resp.data@);
            },
            None => return Flow::Done(Err(()), pos + 1),
        }
        pos += 1;
        index += 1;
    }
    while result.len() < RSA_BLOCK_LEN
        invariant
            at <= pos <= log@.len(),
            spec_ea_from(key_ref, input@, 0, Seq::empty(), log@, at as int)
                == spec_c1_from(result@, log@, pos as int),
        decreases RSA_BLOCK_LEN - result@.len(),
    {
        let offset = result.len();
        let want = if RSA_CHUNK_LEN <= RSA_BLOCK_LEN - offset { RSA_CHUNK_LEN } else { RSA_BLOCK_LEN - offset };
        if pos >= log.len() {
            let cmd = vec![0x80, 0xC1, (offset / 256) as u8, (offset % 256) as u8, want as u8];
            assert(cmd@ =~= c1_cmd(offset as int, want as int));
            return Flow::Transmit(cmd);
        }
        match &log[pos] {
            Some(resp) => {
                if resp.sw != 0x9000 || resp.data.len() == 0 || resp.data.len() > want {
                    return Flow::Done(Err(()), pos + 1);
                }
                let ghost old_result = result@;
                result.extend_from_slice(&resp.data);
                assert(result@ =~= old_result + resp.data@);
            },
            None => return Flow::Done(Err(()), pos + 1),
        }
        pos += 1;
    }
    if result.len() != RSA_BLOCK_LEN {
        return Flow::Done(Err(()), pos);
    }
    Flow::Done(Ok(result), pos)
}

fn rsa_private(st: &CardState, key_ref: u8, input: &[u8], log: &[Option<Response>], at: usize)
    -> (r: Flow<(Result<Vec<u8>, ()>, CardState)>)
    requires
        at <= log@.len(),
        input@.len() == RSA_BLOCK_LEN,
    ensures
        same_bytes_state_flow(r, spec_rsa_private(*st, key_ref, input@, log@, at as int)),
{
    let (s, n) = match select_key_ef(st, log, at) {
        Flow::Transmit(c) => return Flow::Transmit(c),
        Flow::Done((Err(()), s), n) => return Flow::Done((Err(()), s), n),
        Flow::Done((Ok(()), s), n) => (s, n),
    };
    match ea_exchange(key_ref, input, log, n) {
        Flow::Transmit(c) => Flow::Transmit(c),
        Flow::Done(v, m) => Flow::Done((v, s), m),
    }
}

/// Raw RSA private operation on a 256-byte block, into a buffer of
/// `out_cap` bytes.
pub open spec fn spec_rsa_private_op(st: CardState, key_ref: u8, input: Seq<u8>, out_cap: int, log: Seq<Option<Response>>, at: int)
    -> SFlow<(Result<Seq<u8>, ()>, CardState)> {
    if input.len() != RSA_BLOCK_LEN || out_cap < RSA_BLOCK_LEN {
        SFlow::Done((Err(()), st), at)
    } else {
        spec_rsa_private(st, key_ref, input, log, at)
    }
}

pub fn rsa_private_op(st: &CardState, key_ref: u8, input: &[u8], out_cap: usize, log: &[Option<Response>], at: usize)
    -> (r: Flow<(Result<Vec<u8>, ()>, CardState)>)
    requires
        at <= log@.len(),
    ensures
        same_bytes_state_flow(r, spec_rsa_private_op(*st, key_ref, input@, out_cap as int, log@, at as int)),
{
    if input.len() != RSA_BLOCK_LEN || out_cap < RSA_BLOCK_LEN {
        return Flow::Done((Err(()), *st), at);
    }
    rsa_private(st, key_ref, input, log, at)
}

/// PKCS#1 v1.5 signature: pad `data` to a 256-byte block, then the RSA
/// private operation.
pub open spec fn spec_sign(st: CardState, key_ref: u8, data: Seq<u8>, out_cap: int, log: Seq<Option<Response>>, at: int)
    -> SFlow<(Result<Seq<u8>, ()>, CardState)> {
    if out_cap < RSA_BLOCK_LEN || data.len() > RSA_BLOCK_LEN - 11 {
        SFlow::Done((Err(()), st), at)
    } else {
        spec_rsa_private(st, key_ref, type1_block(data, RSA_BLOCK_LEN as nat), log, at)
    }
}

pub fn sign(st: &CardState, key_ref: u8, data: &[u8], out_cap: usize, log: &[Option<Response>], at: usize)
    -> (r: Flow<(Result<Vec<u8>, ()>, CardState)>)
    requires
        at <= log@.len(),
    ensures
        same_bytes_state_flow(r, spec_sign(*st, key_ref, data@, out_cap as int, log@, at as int)),
{
    if out_cap < RSA_BLOCK_LEN {
        return Flow::Done((Err(()), *st), at);
    }
    let block = match pkcs1_v15_signature_block(data) {
        Ok(b) => b,
        Err(()) => return Flow::Done((Err(()), *st), at),
    };
    rsa_private(st, key_ref, &block, log, at)
}

/// PKCS#1 v1.5 decryption: the RSA private operation on a 256-byte
/// ciphertext, then type-2 unpadding into `out_cap` bytes.
pub open spec fn spec_decrypt(st: CardState, key_ref: u8, cipher: Seq<u8>, out_cap: int, log: Seq<Option<Response>>, at: int)
    -> SFlow<(Result<Seq<u8>, ()>, CardState)> {
    if cipher.len() != RSA_BLOCK_LEN {
        SFlow::Done((Err(()), st), at)
    } else {
        match spec_rsa_private(st, key_ref, cipher, log, at) {
            SFlow::Transmit(c) => SFlow::Transmit(c),
            SFlow::Done((Err(()), s), n) => SFlow::Done((Err(()), s), n),
            SFlow::Done((Ok(block), s), n) => match type2_message(block) {
                Some(m) if m.len() <= out_cap => SFlow::Done((Ok(m), s), n),
                _ => SFlow::Done((Err(()), s), n),
            },
        }
    }
}

/// Gen1 RSA decrypt (`CKM_RSA_PKCS`): same `EA`/`C1` as sign, then type-2 unpad.
pub fn decrypt(st: &CardState, key_ref: u8, cipher: &[u8], out_cap: usize, log: &[Option<Response>], at: usize)
    -> (r: Flow<(Result<Vec<u8>, ()>, CardState)>)
    requires
        at <= log@.len(),
    ensures
        same_bytes_state_flow(r, spec_decrypt(*st, key_ref, cipher@, out_cap as int, log@, at as int)),
{
    if cipher.len() != RSA_BLOCK_LEN {
        return Flow::Done((Err(()), *st), at);
    }
    match rsa_private(st, key_ref, cipher, log, at) {
        Flow::Transmit(c) => Flow::Transmit(c),
        Flow::Done((Err(()), s), n) => Flow::Done((Err(()), s), n),
        Flow::Done((Ok(block), s), n) => match pkcs1_v15_unpad_type2(&block) {
            Ok(m) => if m.len() <= out_cap {
                Flow::Done((Ok(m), s), n)
            } else {
                Flow::Done((Err(()), s), n)
            },
            Err(()) => Flow::Done((Err(()), s), n),
        },
    }
}

/// Select the key EF (see [`spec_select_key_ef`]), then READ RECORD
/// `record` with the class byte in use, asking for `want` bytes (the length
/// byte is `want` modulo 256): the record's data on `90 00` with data, an
/// error otherwise or where the key EF could not be selected.
pub open spec fn spec_read_key_record(st: CardState, record: u8, want: int, log: Seq<Option<Response>>, at: int)
    -> SFlow<(Result<Seq<u8>, ()>, CardState)> {
    match spec_select_key_ef(st, log, at) {
        SFlow::Transmit(c) => SFlow::Transmit(c),
        SFlow::Done((Err(()), s), n) => SFlow::Done((Err(()), s), n),
        SFlow::Done((Ok(()), s), n) => if n >= log.len() {
            SFlow::Transmit(seq![s.cla, 0xB2u8, record, 0x00u8, (want % 256) as u8])
        } else {
            SFlow::Done((nonempty_ok_data(log[n]), s), n + 1)
        },
    }
}

/// Select the key EF, then READ RECORD with the class byte in use.
pub fn read_key_record(st: &CardState, record: u8, want: usize, log: &[Option<Response>], at: usize)
    -> (r: Flow<(Result<Vec<u8>, ()>, CardState)>)
    requires
        at <= log@.len(),
    ensures
        same_bytes_state_flow(r, spec_read_key_record(*st, record, want as int, log@, at as int)),
{
    let (s, n) = match select_key_ef(st, log, at) {
        Flow::Transmit(c) => return Flow::Transmit(c),
        Flow::Done((Err(()), s), n) => return Flow::Done((Err(()), s), n),
        Flow::Done((Ok(()), s), n) => (s, n),
    };
    if n >= log.len() {
        let cmd = vec![s.cla, 0xB2, record, 0x00, (want % 256) as u8];
        assert(cmd@ =~= seq![s.cla, 0xB2u8, record, 0x00u8, (want % 256) as u8]);
        return Flow::Transmit(cmd);
    }
    Flow::Done((take_nonempty_ok(log, n), s), n + 1)
}

} // verus!
