//! Gen2 cards (GPPKI applet): SELECT by AID, card-key diversification,
//! GlobalPlatform SCP03 secure messaging, and the SM-wrapped `EA` / `C1` RSA
//! private operation.

use crate::bytes::{bytes_eq, bytes_to_vec, iso_pad16, sub_vec};
use crate::crypto;
use super::{nonempty_ok_data, pkcs1_v15_signature_block, pkcs1_v15_unpad_type2, take_nonempty_ok, type1_block, type2_message, RSA_BLOCK_LEN, pin_block, pin_field, pin_result_sw, pin_status_sw, PinResult, PIN_MAX, answered, answered_ok_or_warning, same_bytes_flow, status, flow_matches, flow_within, ok_or_warning, reply_is, then, Flow, Response, SFlow, same_flow};
use crate::hicos::{aes_cbc_blocks, aes_cbc_chain};
use vstd::prelude::*;

verus! {

pub use crate::bytes::pad80;

/// Gen2 GPPKI applet AID (16 bytes).
pub const AID: [u8; 16] = [
    0xA0, 0x00, 0x00, 0x02, 0x83, 0x00, 0x00, 0x06, 0x22, 0x01, 0x69, 0x64, 0x00, 0x01, 0x01, 0x01,
];

/// Card-manager AID of the issuer security domain; it ends in `00 14`.
pub const ISD_CM_AID: [u8; 15] = [
    0xA0, 0x00, 0x00, 0x02, 0x83, 0xFF, 0x08, 0x86, 0x92, 0x53, 0x53, 0x89, 0xC0, 0x00, 0x14,
];

/// Issuer security domain AID.
pub const ISD_AID: [u8; 7] = [0xA0, 0x00, 0x00, 0x01, 0x51, 0x00, 0x00];

/// AES-wrapped master key for 16-byte card keys.
pub const MASTER_ENC_BLOB_16: [u8; 16] = [
    0xee, 0xe7, 0x65, 0x09, 0x9e, 0x9b, 0x8d, 0x52, 0xa3, 0x37, 0x34, 0x76, 0x0d, 0xd0, 0x30, 0x5e,
];

/// Key that unwraps the master key (`CHT HiCOSPKCS#11`).
pub const DIVERSE_KEK: [u8; 16] = [
    0x43, 0x48, 0x54, 0x20, 0x48, 0x69, 0x43, 0x4f, 0x53, 0x50, 0x4b, 0x43, 0x53, 0x23, 0x31, 0x31,
];

/// SCP03 session of the gen2 applet.
pub struct Scp03Session {
    pub s_enc: Vec<u8>,
    pub s_mac: Vec<u8>,
    pub mcv: Vec<u8>,
    pub enc_counter: u32,
    pub open: bool,
}

/// What an SCP03 session holds: session keys, MAC chaining value, counter,
/// and whether the channel is open.
#[verifier::ext_equal]
pub struct SessionModel {
    pub s_enc: Seq<u8>,
    pub s_mac: Seq<u8>,
    pub mcv: Seq<u8>,
    pub enc_counter: u32,
    pub open: bool,
}

impl View for Scp03Session {
    type V = SessionModel;

    open spec fn view(&self) -> SessionModel {
        SessionModel { s_enc: self.s_enc@, s_mac: self.s_mac@, mcv: self.mcv@, enc_counter: self.enc_counter, open: self.open }
    }
}

/// Sixteen zero bytes.
pub open spec fn zeros16() -> Seq<u8> {
    Seq::new(16, |i: int| 0u8)
}

/// A closed channel: zero keys, counter 1.
pub open spec fn closed_model() -> SessionModel {
    SessionModel { s_enc: zeros16(), s_mac: zeros16(), mcv: zeros16(), enc_counter: 1, open: false }
}

/// Session keys and MAC chaining value are 16 bytes long.
pub open spec fn session_wf(s: SessionModel) -> bool {
    s.s_enc.len() == 16 && s.s_mac.len() == 16 && s.mcv.len() == 16
}

impl Scp03Session {
    /// Session keys and MAC chaining value are 16 bytes long.
    pub open spec fn wf(&self) -> bool {
        session_wf(self@)
    }

    /// No channel: zero keys, counter 1.
    pub fn closed() -> (s: Self)
        ensures
            s.wf(),
            s@ == closed_model(),
    {
        let s = Self { s_enc: vec![0u8; 16], s_mac: vec![0u8; 16], mcv: vec![0u8; 16], enc_counter: 1, open: false };
        assert(s@ =~= closed_model());
        s
    }

    /// A copy of the session.
    pub fn copy(&self) -> (s: Self)
        ensures
            s@ == self@,
    {
        let s = Self {
            s_enc: bytes_to_vec(&self.s_enc),
            s_mac: bytes_to_vec(&self.s_mac),
            mcv: bytes_to_vec(&self.mcv),
            enc_counter: self.enc_counter,
            open: self.open,
        };
        assert(s@ =~= self@);
        s
    }
}

/// AES-128 encryption of one block.
pub fn aes_ecb_encrypt(key: &[u8], block: &[u8]) -> (r: Vec<u8>)
    requires
        key@.len() == 16,
        block@.len() == 16,
    ensures
        r@ == crypto::aes128_encrypt_value(key@, block@),
        r@.len() == 16,
{
    crypto::aes128_encrypt(key, block)
}

/// AES-128 decryption of one block.
pub fn aes_ecb_decrypt(key: &[u8], block: &[u8]) -> (r: Vec<u8>)
    requires
        key@.len() == 16,
        block@.len() == 16,
    ensures
        r@ == crypto::aes128_decrypt_value(key@, block@),
        r@.len() == 16,
{
    crypto::aes128_decrypt(key, block)
}

/// AES-128 CMAC of `data` under `key`.
pub fn aes_cmac(key: &[u8], data: &[u8]) -> (r: Vec<u8>)
    requires
        key@.len() == 16,
    ensures
        r@ == crypto::cmac_aes128_value(key@, data@),
        r@.len() == 16,
{
    crypto::cmac_aes128(key, data)
}

/// AES-128 CBC encryption of whole blocks.
pub fn aes_cbc_encrypt(key: &[u8], iv: &[u8], data: &[u8]) -> (r: Vec<u8>)
    requires
        key@.len() == 16,
        iv@.len() == 16,
        data@.len() % 16 == 0,
    ensures
        r@ == aes_cbc_chain(key@, iv@, data@),
{
    aes_cbc_blocks(key, iv, data)
}

/// One SCP03 KDF block (counter mode, CMAC as the PRF).
pub open spec fn kdf_block(key: Seq<u8>, constant: u8, context: Seq<u8>, out_bits: u16, counter: u8) -> Seq<u8> {
    crypto::cmac_aes128_value(
        key,
        Seq::new(11, |i: int| 0u8) + seq![constant, 0u8, (out_bits >> 8u16) as u8, (out_bits & 0xffu16) as u8, counter]
            + context,
    )
}

/// The first `n` KDF blocks, counters 1, 2, ... (modulo 256).
pub open spec fn kdf_stream(key: Seq<u8>, constant: u8, context: Seq<u8>, out_bits: u16, n: nat) -> Seq<u8>
    decreases n,
{
    if n == 0 {
        Seq::empty()
    } else {
        kdf_stream(key, constant, context, out_bits, (n - 1) as nat)
            + kdf_block(key, constant, context, out_bits, (n % 256) as u8)
    }
}

/// SCP03 key derivation output of `out_bits` bits.
pub open spec fn scp03_kdf_value(key: Seq<u8>, constant: u8, context: Seq<u8>, out_bits: u16) -> Seq<u8> {
    let out_len = (out_bits as nat + 7) / 8;
    kdf_stream(key, constant, context, out_bits, (out_len + 15) / 16).take(out_len as int)
}

/// SCP03 key derivation (NIST SP 800-108 counter mode with AES-CMAC).
pub fn scp03_kdf(key: &[u8], constant: u8, context: &[u8], out_bits: u16) -> (r: Vec<u8>)
    requires
        key@.len() == 16,
    ensures
        r@ == scp03_kdf_value(key@, constant, context@, out_bits),
        r@.len() == (out_bits as nat + 7) / 8,
{
    let out_len = ((out_bits as usize) + 7) / 8;
    let mut result: Vec<u8> = Vec::new();
    let mut counter: u8 = 1;
    let ghost mut n: nat = 0;
    while result.len() < out_len
        invariant
            key@.len() == 16,
            out_len == (out_bits as nat + 7) / 8,
            result@.len() == 16 * n,
            16 * n < out_len + 16,
            counter as nat == (n + 1) % 256,
            result@ == kdf_stream(key@, constant, context@, out_bits, n),
        decreases out_len + 16 - result@.len(),
    {
        let mut block: Vec<u8> = vec![0u8; 11];
        block.push(constant);
        block.push(0x00);
        block.push((out_bits >> 8) as u8);
        block.push((out_bits & 0xff) as u8);
        block.push(counter);
        block.extend_from_slice(context);
        let mac = aes_cmac(key, &block);
        proof {
            n = n + 1;
            assert(block@ =~= Seq::new(11, |i: int| 0u8)
                + seq![constant, 0u8, (out_bits >> 8u16) as u8, (out_bits & 0xffu16) as u8, (n % 256) as u8]
                + context@);
        }
        result.extend_from_slice(&mac);
        counter = counter.wrapping_add(1);
    }
    assert((out_len + 15) / 16 == n) by (nonlinear_arith)
        requires
            16 * n >= out_len,
            16 * n < out_len + 16,
    ;
    result.truncate(out_len);
    result
}

/// The 16-byte SCP03 encryption-counter block: 12 zero bytes, then the
/// counter big-endian.
pub open spec fn counter_block_value(counter: u32) -> Seq<u8> {
    Seq::new(12, |i: int| 0u8) + crate::api::pad::be32(counter as nat)
}

/// The 16-byte SCP03 encryption-counter block of `counter`.
pub fn counter_block(counter: u32) -> (b: Vec<u8>)
    ensures
        b@ == counter_block_value(counter),
        b@.len() == 16,
{
    let mut b: Vec<u8> = vec![0u8; 12];
    b.push((counter / 0x100_0000) as u8);
    b.push(((counter / 0x1_0000) % 256) as u8);
    b.push(((counter / 0x100) % 256) as u8);
    b.push((counter % 256) as u8);
    assert(b@ =~= counter_block_value(counter));
    b
}

/// Derivation data of a diversified card key.
pub open spec fn diverse_context(constant: u8, type_byte: u8, card_id: Seq<u8>, aid: Seq<u8>) -> Seq<u8> {
    Seq::new(11, |i: int| 0u8) + seq![constant, 0u8, 0u8, 0x80u8, 1u8, type_byte] + card_id + aid.subrange(10, 15)
}

/// Key type selected by a diversification constant: 1 (ENC), 2 (MAC), 3 (DEK).
pub open spec fn diverse_type(constant: u8) -> Option<u8> {
    if constant == 0x04 {
        Some(1u8)
    } else if constant == 0x06 {
        Some(2u8)
    } else if constant == 0x0C {
        Some(3u8)
    } else {
        None
    }
}

/// Diversify a 16-byte card key from `master` for the card with the 10-byte
/// `card_id` (key type given by `constant`).
pub fn derive_key(master: &[u8], constant: u8, card_id: &[u8], aid: &[u8], key_len: usize) -> (r: Result<Vec<u8>, ()>)
    requires
        master@.len() == 16,
    ensures
        card_id@.len() != 10 || aid@.len() < 15 || key_len != 16 || diverse_type(constant) is None ==> r is Err,
        card_id@.len() == 10 && aid@.len() >= 15 && key_len == 16 && diverse_type(constant) is Some ==> (r matches Ok(k)
            && k@ == crypto::cmac_aes128_value(master@, diverse_context(constant, diverse_type(constant).unwrap(), card_id@, aid@))
            && k@.len() == 16),
{
    if card_id.len() != 10 || aid.len() < 15 || key_len != 16 {
        return Err(());
    }
    let type_byte: u8 = if constant == 0x04 {
        1
    } else if constant == 0x06 {
        2
    } else if constant == 0x0C {
        3
    } else {
        return Err(());
    };
    assert((key_len >> 5usize) == 0 && (key_len << 3usize) == 128) by (bit_vector)
        requires
            key_len == 16,
    ;
    let mut scheme: Vec<u8> = vec![0u8; 11];
    scheme.push(constant);
    scheme.push(0x00);
    scheme.push((key_len >> 5) as u8);
    scheme.push((key_len << 3) as u8);
    scheme.push(if (key_len << 3) < 0x81 { 1 } else { 2 });
    scheme.push(type_byte);
    scheme.extend_from_slice(card_id);
    let copy_len = key_len - 11;
    let aid_off = 0x1A - key_len;
    let tail = vstd::slice::slice_subrange(aid, aid_off, aid_off + copy_len);
    scheme.extend_from_slice(tail);
    assert(scheme@ =~= diverse_context(constant, type_byte, card_id@, aid@));
    Ok(aes_cmac(master, &scheme))
}

/// The secure-messaging ciphertext of `data` and the counter after it.
pub open spec fn sm_ciphertext(sess: SessionModel, data: Seq<u8>, encrypt: bool) -> (Seq<u8>, u32) {
    if encrypt && data.len() > 0 {
        let iv = crypto::aes128_encrypt_value(sess.s_enc, counter_block_value(sess.enc_counter));
        (aes_cbc_chain(sess.s_enc, iv, iso_pad16(data)), if sess.enc_counter == u32::MAX { 0u32 } else { (sess.enc_counter + 1) as u32 })
    } else {
        (Seq::empty(), sess.enc_counter)
    }
}

/// `le` as a trailing byte, if any.
pub open spec fn le_suffix(le: Option<u8>) -> Seq<u8> {
    match le {
        Some(l) => seq![l],
        None => Seq::empty(),
    }
}

/// Wrapping for SCP03 security level 3: the command (header
/// `CLA|04 INS P1 P2 Lc`, ciphertext, the first 8 bytes of the CMAC over the
/// chaining value, header and ciphertext, then Le) and the session after it
/// (the full CMAC chained, the counter advanced when data was encrypted).
#[verifier::opaque]
pub open spec fn sm_wrap(
    sess: SessionModel,
    cla: u8,
    ins: u8,
    p1: u8,
    p2: u8,
    data: Seq<u8>,
    le: Option<u8>,
    encrypt: bool,
) -> (Seq<u8>, SessionModel) {
    let ct = sm_ciphertext(sess, data, encrypt);
    let head = seq![cla | 0x04u8, ins, p1, p2, ((ct.0.len() + 8) % 256) as u8] + ct.0;
    let mac = crypto::cmac_aes128_value(sess.s_mac, sess.mcv + head);
    (
        head + mac.take(8) + le_suffix(le),
        SessionModel { s_enc: sess.s_enc, s_mac: sess.s_mac, mcv: mac, enc_counter: ct.1, open: sess.open },
    )
}

/// Wrap one command for SCP03 security level 3: encrypt the data field
/// (when asked and non-empty), MAC header and ciphertext, chain the MAC.
pub fn wrap_command(
    sess: &mut Scp03Session,
    cla: u8,
    ins: u8,
    p1: u8,
    p2: u8,
    data: &[u8],
    le: Option<u8>,
    encrypt: bool,
) -> (cmd: Vec<u8>)
    requires
        old(sess).wf(),
    ensures
        final(sess).wf(),
        cmd@ == sm_wrap(old(sess)@, cla, ins, p1, p2, data@, le, encrypt).0,
        final(sess)@ == sm_wrap(old(sess)@, cla, ins, p1, p2, data@, le, encrypt).1,
{
    reveal(sm_wrap);
    let ghost s0 = sess@;
    let sm_cla = cla | 0x04;
    let ciphertext = if encrypt && data.len() > 0 {
        let cb = counter_block(sess.enc_counter);
        let iv = aes_ecb_encrypt(&sess.s_enc, &cb);
        sess.enc_counter = sess.enc_counter.wrapping_add(1);
        let padded = pad80(data);
        aes_cbc_encrypt(&sess.s_enc, &iv, &padded)
    } else {
        Vec::new()
    };
    assert(ciphertext@ =~= sm_ciphertext(s0, data@, encrypt).0);
    let lc = ((ciphertext.len() % 256 + 8) % 256) as u8;
    let mut cmd: Vec<u8> = vec![sm_cla, ins, p1, p2, lc];
    cmd.extend_from_slice(&ciphertext);
    let ghost head = cmd@;
    assert(head =~= seq![cla | 0x04u8, ins, p1, p2, ((ciphertext@.len() + 8) % 256) as u8] + ciphertext@);
    let mut mac_input = bytes_to_vec(&sess.mcv);
    mac_input.extend_from_slice(&cmd);
    assert(mac_input@ =~= s0.mcv + head);
    let full_mac = aes_cmac(&sess.s_mac, &mac_input);
    let tag = sub_vec(&full_mac, 0, 8);
    sess.mcv = full_mac;
    cmd.extend_from_slice(&tag);
    match le {
        Some(l) => cmd.push(l),
        None => {},
    }
    assert(cmd@ =~= sm_wrap(s0, cla, ins, p1, p2, data@, le, encrypt).0);
    assert(sess@ =~= sm_wrap(s0, cla, ins, p1, p2, data@, le, encrypt).1);
    cmd
}

/// The reply to a command: status word and data, or a transport failure.
pub open spec fn reply_of(r: Option<Response>) -> Result<(u16, Seq<u8>), ()> {
    match r {
        Some(x) => Ok((x.sw, x.data@)),
        None => Err(()),
    }
}

/// A reply and the reply it describes.
pub open spec fn same_reply(a: Result<(u16, Vec<u8>), ()>, b: Result<(u16, Seq<u8>), ()>) -> bool {
    match (a, b) {
        (Ok((s1, d1)), Ok((s2, d2))) => s1 == s2 && d1@ == d2,
        (Err(_), Err(_)) => true,
        _ => false,
    }
}

/// Send one command through the secure channel: refused when it is not
/// open; otherwise the wrapped command, then the reply.
pub open spec fn spec_transmit_sm(
    sess: SessionModel,
    cla: u8,
    ins: u8,
    p1: u8,
    p2: u8,
    data: Seq<u8>,
    le: Option<u8>,
    encrypt: bool,
    log: Seq<Option<Response>>,
    at: int,
) -> SFlow<(Result<(u16, Seq<u8>), ()>, SessionModel)> {
    if !sess.open {
        SFlow::Done((Err(()), sess), at)
    } else {
        let w = sm_wrap(sess, cla, ins, p1, p2, data, le, encrypt);
        if at >= log.len() {
            SFlow::Transmit(w.0)
        } else {
            SFlow::Done((reply_of(log[at]), w.1), at + 1)
        }
    }
}

/// Relation of an SM reply and session to what they describe.
pub open spec fn same_sm(a: (Result<(u16, Vec<u8>), ()>, Scp03Session), b: (Result<(u16, Seq<u8>), ()>, SessionModel)) -> bool {
    same_reply(a.0, b.0) && a.1@ == b.1 && a.1.wf()
}

fn reply_at(log: &[Option<Response>], at: usize) -> (r: Result<(u16, Vec<u8>), ()>)
    requires
        at < log@.len(),
    ensures
        same_reply(r, reply_of(log@[at as int])),
{
    match &log[at] {
        Some(x) => Ok((x.sw, bytes_to_vec(&x.data))),
        None => Err(()),
    }
}

/// Send one command through the secure channel.
pub fn transmit_sm(
    sess: &Scp03Session,
    cla: u8,
    ins: u8,
    p1: u8,
    p2: u8,
    data: &[u8],
    le: Option<u8>,
    encrypt: bool,
    log: &[Option<Response>],
    at: usize,
) -> (r: Flow<(Result<(u16, Vec<u8>), ()>, Scp03Session)>)
    requires
        sess.wf(),
        at <= log@.len(),
    ensures
        flow_matches(r, spec_transmit_sm(sess@, cla, ins, p1, p2, data@, le, encrypt, log@, at as int), |a, b| same_sm(a, b)),
        flow_within(r, at as int, log@.len() as int),
{
    let mut s = sess.copy();
    if !s.open {
        return Flow::Done((Err(()), s), at);
    }
    let cmd = wrap_command(&mut s, cla, ins, p1, p2, data, le, encrypt);
    if at >= log.len() {
        return Flow::Transmit(cmd);
    }
    Flow::Done((reply_at(log, at), s), at + 1)
}

/// SM SELECT of `fid` in the current DF (`P2 = 04`): succeeds on `90 00` or a
/// `62 xx` warning.
pub open spec fn spec_sm_select_fid(sess: SessionModel, fid: u16, log: Seq<Option<Response>>, at: int)
    -> SFlow<(Result<(), ()>, SessionModel)> {
    then(
        spec_transmit_sm(sess, 0x00, 0xA4, 0x00, 0x04, seq![(fid >> 8u16) as u8, (fid & 0xFFu16) as u8], None, true, log, at),
        |v: (Result<(u16, Seq<u8>), ()>, SessionModel), n: int| SFlow::Done((
            match v.0 {
                Ok((sw, _)) => if sw == 0x9000 || sw & 0xFF00 == 0x6200 { Ok(()) } else { Err(()) },
                Err(_) => Err(()),
            },
            v.1,
        ), n),
    )
}

/// Relation of an outcome and session to what they describe.
pub open spec fn same_unit_sm(a: (Result<(), ()>, Scp03Session), b: (Result<(), ()>, SessionModel)) -> bool {
    a.0 == b.0 && a.1@ == b.1 && a.1.wf()
}

/// SM SELECT of `fid` in the current DF.
pub fn sm_select_fid(sess: &Scp03Session, fid: u16, log: &[Option<Response>], at: usize)
    -> (r: Flow<(Result<(), ()>, Scp03Session)>)
    requires
        sess.wf(),
        at <= log@.len(),
    ensures
        flow_matches(r, spec_sm_select_fid(sess@, fid, log@, at as int), |a, b| same_unit_sm(a, b)),
        flow_within(r, at as int, log@.len() as int),
{
    let data = [(fid >> 8) as u8, (fid & 0xFF) as u8];
    let ghost d = data@;
    assert(d =~= seq![(fid >> 8u16) as u8, (fid & 0xFFu16) as u8]);
    match transmit_sm(sess, 0x00, 0xA4, 0x00, 0x04, &data, None, true, log, at) {
        Flow::Transmit(c) => Flow::Transmit(c),
        Flow::Done((reply, s), n) => {
            let ok = match reply {
                Ok((sw, _)) => if ok_or_warning(sw) { Ok(()) } else { Err(()) },
                Err(_) => Err(()),
            };
            Flow::Done((ok, s), n)
        },
    }
}

/// SELECT of the GPPKI applet by AID (with Le, as the official module sends it).
pub open spec fn select_aid_cmd() -> Seq<u8> {
    seq![0x00u8, 0xA4u8, 0x04u8, 0x0Cu8, 16u8] + AID@ + seq![0x00u8]
}

/// SELECT the gen2 GPPKI applet: succeeds on `90 00`.
pub open spec fn spec_select_aid(log: Seq<Option<Response>>, at: int) -> SFlow<Result<(), ()>> {
    if at >= log.len() {
        SFlow::Transmit(select_aid_cmd())
    } else {
        SFlow::Done(if answered(log[at], 0x9000) { Ok(()) } else { Err(()) }, at + 1)
    }
}

/// SELECT the gen2 GPPKI applet by AID.
pub fn select_aid(log: &[Option<Response>], at: usize) -> (r: Flow<Result<(), ()>>)
    requires
        at <= log@.len(),
    ensures
        same_flow(r, spec_select_aid(log@, at as int)),
{
    if at >= log.len() {
        let mut cmd: Vec<u8> = vec![0x00, 0xA4, 0x04, 0x0C, 16];
        let aid = AID;
        cmd.extend_from_slice(&aid);
        cmd.push(0x00);
        assert(cmd@ =~= select_aid_cmd());
        return Flow::Transmit(cmd);
    }
    Flow::Done(if reply_is(log, at, 0x9000) { Ok(()) } else { Err(()) }, at + 1)
}

/// SELECT by AID with `P2 = 00`, Le appended when given.
pub open spec fn select_aid_raw_cmd(aid: Seq<u8>, with_le: Option<u8>) -> Seq<u8> {
    seq![0x00u8, 0xA4u8, 0x04u8, 0x00u8, aid.len() as u8] + aid + le_suffix(with_le)
}

/// SELECT by AID: succeeds on `90 00` or a `62 xx` warning.
pub open spec fn spec_select_aid_raw(aid: Seq<u8>, with_le: Option<u8>, log: Seq<Option<Response>>, at: int)
    -> SFlow<Result<(), ()>> {
    if at >= log.len() {
        SFlow::Transmit(select_aid_raw_cmd(aid, with_le))
    } else {
        SFlow::Done(if answered_ok_or_warning(log[at]) { Ok(()) } else { Err(()) }, at + 1)
    }
}

fn select_aid_raw(aid: &[u8], with_le: Option<u8>, log: &[Option<Response>], at: usize) -> (r: Flow<Result<(), ()>>)
    requires
        aid@.len() < 256,
        at <= log@.len(),
    ensures
        same_flow(r, spec_select_aid_raw(aid@, with_le, log@, at as int)),
        flow_within(r, at as int, log@.len() as int),
{
    if at >= log.len() {
        let mut cmd: Vec<u8> = vec![0x00, 0xA4, 0x04, 0x00, aid.len() as u8];
        cmd.extend_from_slice(aid);
        match with_le {
            Some(le) => cmd.push(le),
            None => {},
        }
        assert(cmd@ =~= select_aid_raw_cmd(aid@, with_le));
        return Flow::Transmit(cmd);
    }
    let ok = match status(&log[at]) {
        Some(sw) => ok_or_warning(sw),
        None => false,
    };
    Flow::Done(if ok { Ok(()) } else { Err(()) }, at + 1)
}

/// GET DATA (`80 CA 00 tag 00`): the data when the card answers `90 00`.
pub open spec fn spec_get_data(tag: u8, log: Seq<Option<Response>>, at: int) -> SFlow<Result<Seq<u8>, ()>> {
    if at >= log.len() {
        SFlow::Transmit(seq![0x80u8, 0xCAu8, 0x00u8, tag, 0x00u8])
    } else {
        SFlow::Done(
            match log[at] {
                Some(x) => if x.sw == 0x9000 { Ok(x.data@) } else { Err(()) },
                None => Err(()),
            },
            at + 1,
        )
    }
}

pub(crate) fn get_data(tag: u8, log: &[Option<Response>], at: usize) -> (r: Flow<Result<Vec<u8>, ()>>)
    requires
        at <= log@.len(),
    ensures
        same_bytes_flow(r, spec_get_data(tag, log@, at as int)),
        flow_within(r, at as int, log@.len() as int),
{
    if at >= log.len() {
        let cmd: Vec<u8> = vec![0x80, 0xCA, 0x00, tag, 0x00];
        assert(cmd@ =~= seq![0x80u8, 0xCAu8, 0x00u8, tag, 0x00u8]);
        return Flow::Transmit(cmd);
    }
    let out = match &log[at] {
        Some(x) => if x.sw == 0x9000 { Ok(bytes_to_vec(&x.data)) } else { Err(()) },
        None => Err(()),
    };
    Flow::Done(out, at + 1)
}

/// The master key, unwrapped from the blob.
pub open spec fn diverse_master() -> Seq<u8> {
    crypto::aes128_decrypt_value(DIVERSE_KEK@, MASTER_ENC_BLOB_16@)
}

/// The static K-ENC and K-MAC of the card with the 10-byte `card_id`.
pub open spec fn diversified_keys(card_id: Seq<u8>) -> (Seq<u8>, Seq<u8>) {
    (
        crypto::cmac_aes128_value(diverse_master(), diverse_context(0x04, 1, card_id, ISD_CM_AID@)),
        crypto::cmac_aes128_value(diverse_master(), diverse_context(0x06, 2, card_id, ISD_CM_AID@)),
    )
}

/// What the card's `E0` key information allows: a 16-byte key.
pub open spec fn key_info_ok(e0: Seq<u8>) -> bool {
    e0.len() >= 8 && e0[0] == 0xE0 && e0[7] == 16
}

/// What the card's tag `45` must look like: `45 0A` and a 10-byte card id.
pub open spec fn card_id_ok(t: Seq<u8>) -> bool {
    t.len() >= 12 && t[0] == 0x45 && t[1] == 0x0A
}

/// Static SCP keys: the cached pair, or else SELECT the card manager, GET
/// DATA `E0` (a 16-byte key), SELECT the ISD, GET DATA `45` (the card id),
/// and diversify both keys from the master key.
pub open spec fn spec_diverse_static_keys(cached: Option<(Seq<u8>, Seq<u8>)>, log: Seq<Option<Response>>, at: int)
    -> SFlow<Result<(Seq<u8>, Seq<u8>), ()>> {
    match cached {
        Some(keys) => SFlow::Done(Ok(keys), at),
        None => then(
            spec_select_aid_raw(ISD_CM_AID@, None, log, at),
            |r1: Result<(), ()>, n1: int| if r1 is Err { SFlow::Done(Err(()), n1) } else { then(
                spec_get_data(0xE0, log, n1),
                |e0: Result<Seq<u8>, ()>, n2: int| if !(e0 matches Ok(v) && key_info_ok(v)) { SFlow::Done(Err(()), n2) } else { then(
                    spec_select_aid_raw(ISD_AID@, None, log, n2),
                    |r3: Result<(), ()>, n3: int| if r3 is Err { SFlow::Done(Err(()), n3) } else { then(
                        spec_get_data(0x45, log, n3),
                        |t: Result<Seq<u8>, ()>, n4: int| match t {
                            Ok(v) => if card_id_ok(v) { SFlow::Done(Ok(diversified_keys(v.subrange(2, 12))), n4) } else { SFlow::Done(Err(()), n4) },
                            Err(_) => SFlow::Done(Err(()), n4),
                        },
                    ) },
                ) },
            ) },
        ),
    }
}

/// A pair of keys and the pair it describes.
pub open spec fn same_keys(a: Result<(Vec<u8>, Vec<u8>), ()>, b: Result<(Seq<u8>, Seq<u8>), ()>) -> bool {
    match (a, b) {
        (Ok((x, y)), Ok((u, v))) => x@ == u && y@ == v && x@.len() == 16 && y@.len() == 16,
        (Err(_), Err(_)) => true,
        _ => false,
    }
}

/// Derive static SCP keys (K-ENC / K-MAC) by the card-key diversification
/// scheme, unless `cached` already holds them.
pub fn diverse_static_keys(cached: &Option<(Vec<u8>, Vec<u8>)>, log: &[Option<Response>], at: usize)
    -> (r: Flow<Result<(Vec<u8>, Vec<u8>), ()>>)
    requires
        at <= log@.len(),
        cached matches Some((e, m)) ==> e@.len() == 16 && m@.len() == 16,
    ensures
        flow_matches(
            r,
            spec_diverse_static_keys(match cached { Some((e, m)) => Some((e@, m@)), None => None }, log@, at as int),
            |a, b| same_keys(a, b),
        ),
        flow_within(r, at as int, log@.len() as int),
{
    match cached {
        Some((e, m)) => return Flow::Done(Ok((bytes_to_vec(e), bytes_to_vec(m))), at),
        None => {},
    }
    let cm_aid = ISD_CM_AID;
    let n1 = match select_aid_raw(&cm_aid, None, log, at) {
        Flow::Transmit(c) => return Flow::Transmit(c),
        Flow::Done(Err(_), n) => return Flow::Done(Err(()), n),
        Flow::Done(Ok(_), n) => n,
    };
    let (e0, n2) = match get_data(0xE0, log, n1) {
        Flow::Transmit(c) => return Flow::Transmit(c),
        Flow::Done(Err(_), n) => return Flow::Done(Err(()), n),
        Flow::Done(Ok(v), n) => (v, n),
    };
    if e0.len() < 8 || e0[0] != 0xE0 || e0[7] != 16 {
        return Flow::Done(Err(()), n2);
    }
    let isd_aid = ISD_AID;
    let n3 = match select_aid_raw(&isd_aid, None, log, n2) {
        Flow::Transmit(c) => return Flow::Transmit(c),
        Flow::Done(Err(_), n) => return Flow::Done(Err(()), n),
        Flow::Done(Ok(_), n) => n,
    };
    let (t45, n4) = match get_data(0x45, log, n3) {
        Flow::Transmit(c) => return Flow::Transmit(c),
        Flow::Done(Err(_), n) => return Flow::Done(Err(()), n),
        Flow::Done(Ok(v), n) => (v, n),
    };
    if t45.len() < 12 || t45[0] != 0x45 || t45[1] != 0x0A {
        return Flow::Done(Err(()), n4);
    }
    let card_id = vstd::slice::slice_subrange(t45.as_slice(), 2, 12);
    let kek = DIVERSE_KEK;
    let blob = MASTER_ENC_BLOB_16;
    let master = aes_ecb_decrypt(&kek, &blob);
    let k_enc = derive_key(&master, 0x04, card_id, &cm_aid, 16);
    let k_mac = derive_key(&master, 0x06, card_id, &cm_aid, 16);
    match (k_enc, k_mac) {
        (Ok(e), Ok(m)) => Flow::Done(Ok((e, m)), n4),
        _ => Flow::Done(Err(()), n4),
    }
}

/// INITIALIZE UPDATE with the 8-byte host challenge.
pub open spec fn initialize_update_cmd(host: Seq<u8>) -> Seq<u8> {
    seq![0x80u8, 0x50u8, 0x01u8, 0x00u8, 0x08u8] + host + seq![0x00u8]
}

/// The SCP03 handshake once INITIALIZE UPDATE was answered with `iu`: the
/// session keys from the host and card challenges, the card cryptogram
/// checked, and EXTERNAL AUTHENTICATE (security level 3) with the host
/// cryptogram; `None` where the reply is refused.
pub open spec fn scp03_handshake(k_enc: Seq<u8>, k_mac: Seq<u8>, host: Seq<u8>, iu: Seq<u8>) -> Option<(Seq<u8>, SessionModel)> {
    if iu.len() < 29 || iu[11] != 0x03 {
        None
    } else {
        let context = host + iu.subrange(13, 21);
        let s_mac = scp03_kdf_value(k_mac, 0x06, context, 0x80);
        let s_enc = scp03_kdf_value(k_enc, 0x04, context, 0x80);
        let host_crypto = scp03_kdf_value(s_mac, 0x01, context, 0x40);
        let card_calc = scp03_kdf_value(s_mac, 0x00, context, 0x40);
        if card_calc != iu.subrange(21, 29) {
            None
        } else {
            let head = seq![0x84u8, 0x82u8, 0x03u8, 0x00u8, 0x10u8] + host_crypto;
            let mac = crypto::cmac_aes128_value(s_mac, zeros16() + head);
            Some((head + mac.take(8), SessionModel { s_enc, s_mac, mcv: mac, enc_counter: 1, open: true }))
        }
    }
}

/// Open SCP03: SELECT the applet, INITIALIZE UPDATE with the host challenge
/// (`None` where no random bytes could be had), check the card's answer and
/// cryptogram, EXTERNAL AUTHENTICATE; the open session on `90 00`.
pub open spec fn spec_open_scp03(
    k_enc: Seq<u8>,
    k_mac: Seq<u8>,
    host: Option<Seq<u8>>,
    log: Seq<Option<Response>>,
    at: int,
) -> SFlow<Result<SessionModel, ()>> {
    then(
        spec_select_aid(log, at),
        |r: Result<(), ()>, n: int| if r is Err {
            SFlow::Done(Err(()), n)
        } else {
            match host {
                None => SFlow::Done(Err(()), n),
                Some(h) => if n >= log.len() {
                    SFlow::Transmit(initialize_update_cmd(h))
                } else {
                    match log[n] {
                        Some(x) => if x.sw != 0x9000 {
                            SFlow::Done(Err(()), n + 1)
                        } else {
                            match scp03_handshake(k_enc, k_mac, h, x.data@) {
                                None => SFlow::Done(Err(()), n + 1),
                                Some((ea, sess)) => if n + 1 >= log.len() {
                                    SFlow::Transmit(ea)
                                } else if answered(log[n + 1], 0x9000) {
                                    SFlow::Done(Ok(sess), n + 2)
                                } else {
                                    SFlow::Done(Err(()), n + 2)
                                },
                            }
                        },
                        None => SFlow::Done(Err(()), n + 1),
                    }
                },
            }
        },
    )
}

/// A session and the session it describes.
pub open spec fn same_session(a: Result<Scp03Session, ()>, b: Result<SessionModel, ()>) -> bool {
    match (a, b) {
        (Ok(x), Ok(y)) => x@ == y && x.wf(),
        (Err(_), Err(_)) => true,
        _ => false,
    }
}

/// Open an SCP03 channel with the static keys `k_enc` / `k_mac`.
pub fn open_scp03(k_enc: &[u8], k_mac: &[u8], host: &Option<Vec<u8>>, log: &[Option<Response>], at: usize)
    -> (r: Flow<Result<Scp03Session, ()>>)
    requires
        k_enc@.len() == 16,
        k_mac@.len() == 16,
        host matches Some(h) ==> h@.len() == 8,
        at <= log@.len(),
    ensures
        flow_matches(
            r,
            spec_open_scp03(k_enc@, k_mac@, match host { Some(h) => Some(h@), None => None }, log@, at as int),
            |a, b| same_session(a, b),
        ),
        flow_within(r, at as int, log@.len() as int),
{
    let n = match select_aid(log, at) {
        Flow::Transmit(c) => return Flow::Transmit(c),
        Flow::Done(Err(_), n) => return Flow::Done(Err(()), n),
        Flow::Done(Ok(_), n) => n,
    };
    let h = match host {
        None => return Flow::Done(Err(()), n),
        Some(h) => h,
    };
    if n >= log.len() {
        let mut cmd: Vec<u8> = vec![0x80, 0x50, 0x01, 0x00, 0x08];
        cmd.extend_from_slice(h);
        cmd.push(0x00);
        assert(cmd@ =~= initialize_update_cmd(h@));
        return Flow::Transmit(cmd);
    }
    let iu = match &log[n] {
        None => return Flow::Done(Err(()), n + 1),
        Some(x) => if x.sw != 0x9000 {
            return Flow::Done(Err(()), n + 1);
        } else {
            &x.data
        },
    };
    if iu.len() < 29 || iu[11] != 0x03 {
        return Flow::Done(Err(()), n + 1);
    }
    let mut context = bytes_to_vec(h);
    context.extend_from_slice(vstd::slice::slice_subrange(iu.as_slice(), 13, 21));
    assert(context@ =~= h@ + iu@.subrange(13, 21));
    let s_mac = scp03_kdf(k_mac, 0x06, &context, 0x80);
    let s_enc = scp03_kdf(k_enc, 0x04, &context, 0x80);
    let host_crypto = scp03_kdf(&s_mac, 0x01, &context, 0x40);
    let card_calc = scp03_kdf(&s_mac, 0x00, &context, 0x40);
    if !bytes_eq(&card_calc, vstd::slice::slice_subrange(iu.as_slice(), 21, 29)) {
        return Flow::Done(Err(()), n + 1);
    }
    let mut ea: Vec<u8> = vec![0x84, 0x82, 0x03, 0x00, 0x10];
    ea.extend_from_slice(&host_crypto);
    let ghost head = ea@;
    let mut mac_input: Vec<u8> = vec![0u8; 16];
    mac_input.extend_from_slice(&ea);
    assert(mac_input@ =~= zeros16() + head);
    let full_mac = aes_cmac(&s_mac, &mac_input);
    let tag = sub_vec(&full_mac, 0, 8);
    ea.extend_from_slice(&tag);
    assert(ea@ =~= head + full_mac@.take(8));
    let ghost model = SessionModel { s_enc: s_enc@, s_mac: s_mac@, mcv: full_mac@, enc_counter: 1, open: true };
    assert(log@[n as int] matches Some(x) && x.sw == 0x9000 && x.data@ == iu@);
    assert(card_calc@ == iu@.subrange(21, 29));
    assert(head == seq![0x84u8, 0x82u8, 0x03u8, 0x00u8, 0x10u8] + host_crypto@);
    assert(full_mac@ == crypto::cmac_aes128_value(s_mac@, zeros16() + head));
    assert(scp03_handshake(k_enc@, k_mac@, h@, iu@) == Some((ea@, model)));
    if n + 1 >= log.len() {
        return Flow::Transmit(ea);
    }
    if !reply_is(log, n + 1, 0x9000) {
        return Flow::Done(Err(()), n + 2);
    }
    let sess = Scp03Session { s_enc, s_mac, mcv: full_mac, enc_counter: 1, open: true };
    assert(sess@ =~= model);
    Flow::Done(Ok(sess), n + 2)
}

/// Gen2 authentication state of a connection: the secure channel, the PIN
/// cached after a successful login (sign and decrypt log in again with it),
/// and the diversified static keys once derived.
pub struct AuthState {
    pub scp: Scp03Session,
    pub cached_pin: Option<Vec<u8>>,
    pub static_keys: Option<(Vec<u8>, Vec<u8>)>,
}

/// What the authentication state holds.
pub struct AuthModel {
    pub scp: SessionModel,
    pub pin: Option<Seq<u8>>,
    pub keys: Option<(Seq<u8>, Seq<u8>)>,
}

impl View for AuthState {
    type V = AuthModel;

    open spec fn view(&self) -> AuthModel {
        AuthModel {
            scp: self.scp@,
            pin: match self.cached_pin {
                Some(p) => Some(p@),
                None => None,
            },
            keys: match self.static_keys {
                Some((e, m)) => Some((e@, m@)),
                None => None,
            },
        }
    }
}

/// Session well formed, a cached PIN of valid length, 16-byte static keys.
pub open spec fn auth_wf(m: AuthModel) -> bool {
    &&& session_wf(m.scp)
    &&& m.pin matches Some(p) ==> 0 < p.len() <= PIN_MAX
    &&& m.keys matches Some((e, k)) ==> e.len() == 16 && k.len() == 16
}

/// No channel, no cached PIN, no keys.
pub open spec fn cleared_auth() -> AuthModel {
    AuthModel { scp: closed_model(), pin: None, keys: None }
}

/// Two authentication states hold the same.
pub open spec fn same_auth(a: AuthModel, b: AuthModel) -> bool {
    a.scp == b.scp && a.pin == b.pin && a.keys == b.keys
}

impl AuthState {
    pub open spec fn wf(&self) -> bool {
        auth_wf(self@)
    }

    /// A state with nothing established.
    pub fn new() -> (s: Self)
        ensures
            s.wf(),
            same_auth(s@, cleared_auth()),
    {
        AuthState { scp: Scp03Session::closed(), cached_pin: None, static_keys: None }
    }

    /// A copy of the state.
    pub fn copy(&self) -> (s: Self)
        ensures
            same_auth(s@, self@),
    {
        let pin = match &self.cached_pin {
            Some(p) => Some(bytes_to_vec(p)),
            None => None,
        };
        let keys = match &self.static_keys {
            Some((e, m)) => Some((bytes_to_vec(e), bytes_to_vec(m))),
            None => None,
        };
        AuthState { scp: self.scp.copy(), cached_pin: pin, static_keys: keys }
    }
}

/// Drop the secure channel, the cached PIN and the static keys (logout, or a
/// failed authentication).
pub fn clear_auth_state(st: &mut AuthState)
    ensures
        final(st).wf(),
        same_auth(final(st)@, cleared_auth()),
{
    st.scp = Scp03Session::closed();
    st.cached_pin = None;
    st.static_keys = None;
}

/// SM VERIFY of the user PIN (`P2 = 01`), the PIN padded with `FF`.
pub open spec fn spec_sm_verify(sess: SessionModel, pin: Seq<u8>, log: Seq<Option<Response>>, at: int)
    -> SFlow<(PinResult, SessionModel)> {
    then(
        spec_transmit_sm(sess, 0x00, 0x20, 0x00, 0x01, pin_field(pin), None, true, log, at),
        |v: (Result<(u16, Seq<u8>), ()>, SessionModel), n: int| SFlow::Done((
            match v.0 {
                Ok((sw, _)) => pin_status_sw(sw),
                Err(_) => PinResult::Error,
            },
            v.1,
        ), n),
    )
}

/// Relation of a PIN outcome and session to what they describe.
pub open spec fn same_pin_sm(a: (PinResult, Scp03Session), b: (PinResult, SessionModel)) -> bool {
    a.0 == b.0 && a.1@ == b.1 && a.1.wf()
}

fn sm_verify(sess: &Scp03Session, pin: &[u8], log: &[Option<Response>], at: usize) -> (r: Flow<(PinResult, Scp03Session)>)
    requires
        sess.wf(),
        pin@.len() <= PIN_MAX,
        at <= log@.len(),
    ensures
        flow_matches(r, spec_sm_verify(sess@, pin@, log@, at as int), |a, b| same_pin_sm(a, b)),
        flow_within(r, at as int, log@.len() as int),
{
    let pinbuf = pin_block(pin);
    match transmit_sm(sess, 0x00, 0x20, 0x00, 0x01, &pinbuf, None, true, log, at) {
        Flow::Transmit(c) => Flow::Transmit(c),
        Flow::Done((reply, s), n) => {
            let p = match reply {
                Ok((sw, _)) => pin_result_sw(sw),
                Err(_) => PinResult::Error,
            };
            Flow::Done((p, s), n)
        },
    }
}

/// `st` with a new channel.
pub open spec fn with_scp(st: AuthModel, scp: SessionModel) -> AuthModel {
    AuthModel { scp, pin: st.pin, keys: st.keys }
}

/// Gen2 login: derive the static keys, open SCP03, SM VERIFY. A PIN of 1 to
/// 10 bytes is required. Before anything is sent the channel is closed and
/// the cached PIN dropped; the PIN is cached on success, and the channel
/// closed again on any other answer to VERIFY.
pub open spec fn spec_verify_pin(st: AuthModel, pin: Seq<u8>, host: Option<Seq<u8>>, log: Seq<Option<Response>>, at: int)
    -> SFlow<(PinResult, AuthModel)> {
    if pin.len() == 0 || pin.len() > PIN_MAX {
        SFlow::Done((PinResult::Error, st), at)
    } else {
        let st1 = AuthModel { scp: closed_model(), pin: None, keys: st.keys };
        then(
            spec_diverse_static_keys(st.keys, log, at),
            |k: Result<(Seq<u8>, Seq<u8>), ()>, n1: int| match k {
                Err(_) => SFlow::Done((PinResult::Error, st1), n1),
                Ok(keys) => {
                    let st2 = AuthModel { scp: closed_model(), pin: None, keys: Some(keys) };
                    then(
                        spec_open_scp03(keys.0, keys.1, host, log, n1),
                        |o: Result<SessionModel, ()>, n2: int| match o {
                            Err(_) => SFlow::Done((PinResult::Error, st2), n2),
                            Ok(sess) => then(
                                spec_sm_verify(sess, pin, log, n2),
                                |v: (PinResult, SessionModel), n3: int| if v.0 == PinResult::Verified {
                                    SFlow::Done((PinResult::Verified, AuthModel { scp: v.1, pin: Some(pin), keys: Some(keys) }), n3)
                                } else {
                                    SFlow::Done((v.0, st2), n3)
                                },
                            ),
                        },
                    )
                },
            },
        )
    }
}

/// Relation of an outcome and state to what they describe.
pub open spec fn same_pin_auth(a: (PinResult, AuthState), b: (PinResult, AuthModel)) -> bool {
    a.0 == b.0 && same_auth(a.1@, b.1) && a.1.wf()
}

/// Gen2 login: card-key diversification, SCP03, SM VERIFY (`84 20`).
/// `_pin_ref` is not used: the user PIN is always `P2 = 01`. `host` is the
/// host challenge for SCP03 (`None` where no random bytes could be had).
pub fn verify_pin(st: &AuthState, _pin_ref: u8, pin: &[u8], host: &Option<Vec<u8>>, log: &[Option<Response>], at: usize)
    -> (r: Flow<(PinResult, AuthState)>)
    requires
        st.wf(),
        host matches Some(h) ==> h@.len() == 8,
        at <= log@.len(),
    ensures
        flow_matches(
            r,
            spec_verify_pin(st@, pin@, match host { Some(h) => Some(h@), None => None }, log@, at as int),
            |a, b| same_pin_auth(a, b),
        ),
        flow_within(r, at as int, log@.len() as int),
{
    if pin.len() == 0 || pin.len() > PIN_MAX {
        return Flow::Done((PinResult::Error, st.copy()), at);
    }
    let keys_cached = match &st.static_keys {
        Some((e, m)) => Some((bytes_to_vec(e), bytes_to_vec(m))),
        None => None,
    };
    let (keys, n1) = match diverse_static_keys(&st.static_keys, log, at) {
        Flow::Transmit(c) => return Flow::Transmit(c),
        Flow::Done(Err(_), n) => {
            let st1 = AuthState { scp: Scp03Session::closed(), cached_pin: None, static_keys: keys_cached };
            return Flow::Done((PinResult::Error, st1), n);
        },
        Flow::Done(Ok(k), n) => (k, n),
    };
    let (k_enc, k_mac) = keys;
    let sess = match open_scp03(&k_enc, &k_mac, host, log, n1) {
        Flow::Transmit(c) => return Flow::Transmit(c),
        Flow::Done(Err(_), n) => {
            let st2 = AuthState { scp: Scp03Session::closed(), cached_pin: None, static_keys: Some((k_enc, k_mac)) };
            return Flow::Done((PinResult::Error, st2), n);
        },
        Flow::Done(Ok(s), n) => (s, n),
    };
    let (sess, n2) = sess;
    match sm_verify(&sess, pin, log, n2) {
        Flow::Transmit(c) => Flow::Transmit(c),
        Flow::Done((p, s), n3) => {
            if p == PinResult::Verified {
                let st3 = AuthState { scp: s, cached_pin: Some(bytes_to_vec(pin)), static_keys: Some((k_enc, k_mac)) };
                Flow::Done((PinResult::Verified, st3), n3)
            } else {
                let st2 = AuthState { scp: Scp03Session::closed(), cached_pin: None, static_keys: Some((k_enc, k_mac)) };
                Flow::Done((p, st2), n3)
            }
        },
    }
}

/// Before each private-key operation the card wants a fresh login: with the
/// cached PIN (refused without one) derive the keys, reopen SCP03, SM VERIFY,
/// then SM SELECT `5030` and `0810`. The channel is closed before it is
/// reopened, and again when VERIFY is not accepted.
pub open spec fn spec_prepare_for_private_op(st: AuthModel, host: Option<Seq<u8>>, log: Seq<Option<Response>>, at: int)
    -> SFlow<(Result<(), ()>, AuthModel)> {
    match st.pin {
        None => SFlow::Done((Err(()), st), at),
        Some(pin) => then(
            spec_diverse_static_keys(st.keys, log, at),
            |k: Result<(Seq<u8>, Seq<u8>), ()>, n1: int| match k {
                Err(_) => SFlow::Done((Err(()), st), n1),
                Ok(keys) => {
                    let st1 = AuthModel { scp: closed_model(), pin: st.pin, keys: Some(keys) };
                    then(
                        spec_open_scp03(keys.0, keys.1, host, log, n1),
                        |o: Result<SessionModel, ()>, n2: int| match o {
                            Err(_) => SFlow::Done((Err(()), st1), n2),
                            Ok(sess) => then(
                                spec_sm_verify(sess, pin, log, n2),
                                |v: (PinResult, SessionModel), n3: int| if v.0 != PinResult::Verified {
                                    SFlow::Done((Err(()), st1), n3)
                                } else {
                                    then(
                                        spec_sm_select_fid(v.1, 0x5030, log, n3),
                                        |w: (Result<(), ()>, SessionModel), n4: int| if w.0 is Err {
                                            SFlow::Done((Err(()), with_scp(st1, w.1)), n4)
                                        } else {
                                            then(
                                                spec_sm_select_fid(w.1, 0x0810, log, n4),
                                                |x: (Result<(), ()>, SessionModel), n5: int| SFlow::Done((x.0, with_scp(st1, x.1)), n5),
                                            )
                                        },
                                    )
                                },
                            ),
                        },
                    )
                },
            },
        ),
    }
}

/// Relation of an outcome and state to what they describe.
pub open spec fn same_unit_auth(a: (Result<(), ()>, AuthState), b: (Result<(), ()>, AuthModel)) -> bool {
    a.0 == b.0 && same_auth(a.1@, b.1) && a.1.wf()
}

fn prepare_for_private_op(st: &AuthState, host: &Option<Vec<u8>>, log: &[Option<Response>], at: usize)
    -> (r: Flow<(Result<(), ()>, AuthState)>)
    requires
        st.wf(),
        host matches Some(h) ==> h@.len() == 8,
        at <= log@.len(),
    ensures
        flow_matches(
            r,
            spec_prepare_for_private_op(st@, match host { Some(h) => Some(h@), None => None }, log@, at as int),
            |a, b| same_unit_auth(a, b),
        ),
        flow_within(r, at as int, log@.len() as int),
{
    let pin = match &st.cached_pin {
        None => return Flow::Done((Err(()), st.copy()), at),
        Some(p) => p,
    };
    let (keys, n1) = match diverse_static_keys(&st.static_keys, log, at) {
        Flow::Transmit(c) => return Flow::Transmit(c),
        Flow::Done(Err(_), n) => return Flow::Done((Err(()), st.copy()), n),
        Flow::Done(Ok(k), n) => (k, n),
    };
    let (k_enc, k_mac) = keys;
    let (sess, n2) = match open_scp03(&k_enc, &k_mac, host, log, n1) {
        Flow::Transmit(c) => return Flow::Transmit(c),
        Flow::Done(Err(_), n) => {
            let st1 = AuthState { scp: Scp03Session::closed(), cached_pin: Some(bytes_to_vec(pin)), static_keys: Some((k_enc, k_mac)) };
            return Flow::Done((Err(()), st1), n);
        },
        Flow::Done(Ok(s), n) => (s, n),
    };
    let (s1, n3) = match sm_verify(&sess, pin, log, n2) {
        Flow::Transmit(c) => return Flow::Transmit(c),
        Flow::Done((p, s), n) => if p != PinResult::Verified {
            let st1 = AuthState { scp: Scp03Session::closed(), cached_pin: Some(bytes_to_vec(pin)), static_keys: Some((k_enc, k_mac)) };
            return Flow::Done((Err(()), st1), n);
        } else {
            (s, n)
        },
    };
    let (s2, n4) = match sm_select_fid(&s1, 0x5030, log, n3) {
        Flow::Transmit(c) => return Flow::Transmit(c),
        Flow::Done((Err(_), s), n) => {
            let st1 = AuthState { scp: s, cached_pin: Some(bytes_to_vec(pin)), static_keys: Some((k_enc, k_mac)) };
            return Flow::Done((Err(()), st1), n);
        },
        Flow::Done((Ok(_), s), n) => (s, n),
    };
    match sm_select_fid(&s2, 0x0810, log, n4) {
        Flow::Transmit(c) => Flow::Transmit(c),
        Flow::Done((res, s), n) => {
            let st1 = AuthState { scp: s, cached_pin: Some(bytes_to_vec(pin)), static_keys: Some((k_enc, k_mac)) };
            Flow::Done((res, st1), n)
        },
    }
}

/// Collecting the result with MAC-only `C1` reads (`80 C1 00 80`, Le `80`)
/// until it is at least 256 bytes long; more than 256 is refused.
pub open spec fn spec_c1_sm(sess: SessionModel, result: Seq<u8>, log: Seq<Option<Response>>, at: int)
    -> SFlow<(Result<Seq<u8>, ()>, SessionModel)>
    decreases (if result.len() < RSA_BLOCK_LEN { RSA_BLOCK_LEN - result.len() } else { 0 }),
{
    if result.len() >= RSA_BLOCK_LEN {
        SFlow::Done((Ok(result.take(RSA_BLOCK_LEN as int)), sess), at)
    } else if !sess.open {
        SFlow::Done((Err(()), sess), at)
    } else {
        let w = sm_wrap(sess, 0x80, 0xC1, 0x00, 0x80, Seq::empty(), Some(0x80u8), false);
        if at >= log.len() {
            SFlow::Transmit(w.0)
        } else {
            match log[at] {
                Some(x) => if x.sw != 0x9000 || x.data@.len() == 0 || result.len() + x.data@.len() > RSA_BLOCK_LEN {
                    SFlow::Done((Err(()), w.1), at + 1)
                } else {
                    spec_c1_sm(w.1, result + x.data@, log, at + 1)
                },
                None => SFlow::Done((Err(()), w.1), at + 1),
            }
        }
    }
}

/// The two 128-byte halves of `input` through SM `EA` (`P1 = 82`, then `02`
/// with Le `80`), from half `index`; then `C1` reads.
pub open spec fn spec_ea_sm(sess: SessionModel, key_ref: u8, input: Seq<u8>, index: int, result: Seq<u8>, log: Seq<Option<Response>>, at: int)
    -> SFlow<(Result<Seq<u8>, ()>, SessionModel)>
    decreases (if 0 <= index < 2 { 2 - index } else { 0 }),
{
    if index >= 2 || index < 0 {
        spec_c1_sm(sess, result, log, at)
    } else if !sess.open {
        SFlow::Done((Err(()), sess), at)
    } else {
        let w = sm_wrap(
            sess, 0x80, 0xEA, if index == 0 { 0x82u8 } else { 0x02u8 }, key_ref,
            input.subrange(128 * index, 128 * index + 128), if index == 0 { None } else { Some(0x80u8) }, true,
        );
        if at >= log.len() {
            SFlow::Transmit(w.0)
        } else {
            match log[at] {
                Some(x) => if x.sw == 0x9000 {
                    spec_ea_sm(w.1, key_ref, input, index + 1, result + x.data@, log, at + 1)
                } else {
                    SFlow::Done((Err(()), w.1), at + 1)
                },
                None => SFlow::Done((Err(()), w.1), at + 1),
            }
        }
    }
}

/// A byte outcome with the session it leaves, as a byte outcome with the
/// whole state.
pub open spec fn in_auth(f: SFlow<(Result<Seq<u8>, ()>, SessionModel)>, st: AuthModel) -> SFlow<(Result<Seq<u8>, ()>, AuthModel)> {
    match f {
        SFlow::Transmit(c) => SFlow::Transmit(c),
        SFlow::Done((r, s), n) => SFlow::Done((r, with_scp(st, s)), n),
    }
}

/// RSA private operation on a 256-byte block under SCP03: log in again,
/// then SM `EA` twice and `C1` for the rest.
pub open spec fn spec_rsa_private(st: AuthModel, key_ref: u8, input: Seq<u8>, host: Option<Seq<u8>>, log: Seq<Option<Response>>, at: int)
    -> SFlow<(Result<Seq<u8>, ()>, AuthModel)> {
    then(
        spec_prepare_for_private_op(st, host, log, at),
        |p: (Result<(), ()>, AuthModel), n: int| if p.0 is Err {
            SFlow::Done((Err(()), p.1), n)
        } else {
            in_auth(spec_ea_sm(p.1.scp, key_ref, input, 0, Seq::empty(), log, n), p.1)
        },
    )
}

/// Relation of a byte outcome and state to what they describe.
pub open spec fn same_bytes_auth(a: (Result<Vec<u8>, ()>, AuthState), b: (Result<Seq<u8>, ()>, AuthModel)) -> bool {
    &&& match (a.0, b.0) {
        (Ok(x), Ok(y)) => x@ == y,
        (Err(_), Err(_)) => true,
        _ => false,
    }
    &&& same_auth(a.1@, b.1)
    &&& a.1.wf()
}

fn rsa_private(st: &AuthState, key_ref: u8, input: &[u8], host: &Option<Vec<u8>>, log: &[Option<Response>], at: usize)
    -> (r: Flow<(Result<Vec<u8>, ()>, AuthState)>)
    requires
        st.wf(),
        input@.len() == RSA_BLOCK_LEN,
        host matches Some(h) ==> h@.len() == 8,
        at <= log@.len(),
    ensures
        flow_matches(
            r,
            spec_rsa_private(st@, key_ref, input@, match host { Some(h) => Some(h@), None => None }, log@, at as int),
            |a, b| same_bytes_auth(a, b),
        ),
        flow_within(r, at as int, log@.len() as int),
{
    let ghost hv = match host { Some(h) => Some(h@), None => None };
    let (st1, n) = match prepare_for_private_op(st, host, log, at) {
        Flow::Transmit(c) => return Flow::Transmit(c),
        Flow::Done((Err(_), s), n) => return Flow::Done((Err(()), s), n),
        Flow::Done((Ok(_), s), n) => (s, n),
    };
    let ghost base = st1@;
    let ghost goal = spec_rsa_private(st@, key_ref, input@, hv, log@, at as int);
    let AuthState { scp: mut sess, cached_pin, static_keys } = st1;
    let mut result: Vec<u8> = Vec::new();
    let mut pos = n;
    let mut index: usize = 0;
    assert(result@ =~= Seq::<u8>::empty());
    while index < 2
        invariant
            index <= 2,
            at <= pos <= log@.len(),
            input@.len() == RSA_BLOCK_LEN,
            sess.wf(),
            auth_wf(base),
            base.pin == (match cached_pin { Some(p) => Some(p@), None => None::<Seq<u8>> }),
            base.keys == (match static_keys { Some((e, m)) => Some((e@, m@)), None => None::<(Seq<u8>, Seq<u8>)> }),
            goal == spec_rsa_private(st@, key_ref, input@, hv, log@, at as int),
            hv == (match host { Some(h) => Some(h@), None => None::<Seq<u8>> }),
            goal == in_auth(spec_ea_sm(sess@, key_ref, input@, index as int, result@, log@, pos as int), base),
        decreases 2 - index,
    {
        let p1: u8 = if index == 0 { 0x82 } else { 0x02 };
        let le: Option<u8> = if index == 0 { None } else { Some(0x80) };
        let chunk = vstd::slice::slice_subrange(input, 128 * index, 128 * index + 128);
        match transmit_sm(&sess, 0x80, 0xEA, p1, key_ref, chunk, le, true, log, pos) {
            Flow::Transmit(c) => return Flow::Transmit(c),
            Flow::Done((reply, s), m) => {
                let ok = match &reply {
                    Ok((sw, _)) => *sw == 0x9000,
                    Err(_) => false,
                };
                if !ok {
                    let out = AuthState { scp: s, cached_pin, static_keys };
                    return Flow::Done((Err(()), out), m);
                }
                match reply {
                    Ok((_, data)) => {
                        let ghost old_result = result@;
                        result.extend_from_slice(&data);
                        assert(result@ =~= old_result + data@);
                    },
                    Err(_) => {},
                }
                sess = s;
                pos = m;
            },
        }
        index += 1;
    }
    while result.len() < RSA_BLOCK_LEN
        invariant
            at <= pos <= log@.len(),
            sess.wf(),
            auth_wf(base),
            base.pin == (match cached_pin { Some(p) => Some(p@), None => None::<Seq<u8>> }),
            base.keys == (match static_keys { Some((e, m)) => Some((e@, m@)), None => None::<(Seq<u8>, Seq<u8>)> }),
            goal == spec_rsa_private(st@, key_ref, input@, hv, log@, at as int),
            hv == (match host { Some(h) => Some(h@), None => None::<Seq<u8>> }),
            goal == in_auth(spec_c1_sm(sess@, result@, log@, pos as int), base),
        decreases RSA_BLOCK_LEN - result@.len(),
    {
        let empty: [u8; 0] = [];
        match transmit_sm(&sess, 0x80, 0xC1, 0x00, 0x80, &empty, Some(0x80), false, log, pos) {
            Flow::Transmit(c) => {
                assert(empty@ =~= Seq::<u8>::empty());
                return Flow::Transmit(c);
            },
            Flow::Done((reply, s), m) => {
                assert(empty@ =~= Seq::<u8>::empty());
                let data = match reply {
                    Ok((sw, d)) => if sw != 0x9000 || d.len() == 0 || d.len() > RSA_BLOCK_LEN - result.len() {
                        let out = AuthState { scp: s, cached_pin, static_keys };
                        return Flow::Done((Err(()), out), m);
                    } else {
                        d
                    },
                    Err(_) => {
                        let out = AuthState { scp: s, cached_pin, static_keys };
                        return Flow::Done((Err(()), out), m);
                    },
                };
                let ghost old_result = result@;
                result.extend_from_slice(&data);
                assert(result@ =~= old_result + data@);
                sess = s;
                pos = m;
            },
        }
    }
    let out_block = sub_vec(&result, 0, RSA_BLOCK_LEN);
    let out = AuthState { scp: sess, cached_pin, static_keys };
    Flow::Done((Ok(out_block), out), pos)
}

/// Raw RSA private operation on a 256-byte block, into a buffer of
/// `out_cap` bytes.
pub open spec fn spec_rsa_private_op(st: AuthModel, key_ref: u8, input: Seq<u8>, out_cap: int, host: Option<Seq<u8>>, log: Seq<Option<Response>>, at: int)
    -> SFlow<(Result<Seq<u8>, ()>, AuthModel)> {
    if input.len() != RSA_BLOCK_LEN || out_cap < RSA_BLOCK_LEN {
        SFlow::Done((Err(()), st), at)
    } else {
        spec_rsa_private(st, key_ref, input, host, log, at)
    }
}

pub fn rsa_private_op(
    st: &AuthState,
    key_ref: u8,
    input: &[u8],
    out_cap: usize,
    host: &Option<Vec<u8>>,
    log: &[Option<Response>],
    at: usize,
) -> (r: Flow<(Result<Vec<u8>, ()>, AuthState)>)
    requires
        st.wf(),
        host matches Some(h) ==> h@.len() == 8,
        at <= log@.len(),
    ensures
        flow_matches(
            r,
            spec_rsa_private_op(st@, key_ref, input@, out_cap as int, match host { Some(h) => Some(h@), None => None }, log@, at as int),
            |a, b| same_bytes_auth(a, b),
        ),
        flow_within(r, at as int, log@.len() as int),
{
    if input.len() != RSA_BLOCK_LEN || out_cap < RSA_BLOCK_LEN {
        return Flow::Done((Err(()), st.copy()), at);
    }
    rsa_private(st, key_ref, input, host, log, at)
}

/// Gen2 RSA sign: PKCS#1 v1.5 block of `data`, then the private operation.
pub open spec fn spec_sign(st: AuthModel, key_ref: u8, data: Seq<u8>, out_cap: int, host: Option<Seq<u8>>, log: Seq<Option<Response>>, at: int)
    -> SFlow<(Result<Seq<u8>, ()>, AuthModel)> {
    if out_cap < RSA_BLOCK_LEN || data.len() > RSA_BLOCK_LEN - 11 {
        SFlow::Done((Err(()), st), at)
    } else {
        spec_rsa_private(st, key_ref, type1_block(data, RSA_BLOCK_LEN as nat), host, log, at)
    }
}

pub fn sign(
    st: &AuthState,
    key_ref: u8,
    data: &[u8],
    out_cap: usize,
    host: &Option<Vec<u8>>,
    log: &[Option<Response>],
    at: usize,
) -> (r: Flow<(Result<Vec<u8>, ()>, AuthState)>)
    requires
        st.wf(),
        host matches Some(h) ==> h@.len() == 8,
        at <= log@.len(),
    ensures
        flow_matches(
            r,
            spec_sign(st@, key_ref, data@, out_cap as int, match host { Some(h) => Some(h@), None => None }, log@, at as int),
            |a, b| same_bytes_auth(a, b),
        ),
        flow_within(r, at as int, log@.len() as int),
{
    if out_cap < RSA_BLOCK_LEN {
        return Flow::Done((Err(()), st.copy()), at);
    }
    let block = match pkcs1_v15_signature_block(data) {
        Ok(b) => b,
        Err(()) => return Flow::Done((Err(()), st.copy()), at),
    };
    rsa_private(st, key_ref, &block, host, log, at)
}

/// Gen2 RSA decrypt (`CKM_RSA_PKCS`): the private operation on a 256-byte
/// ciphertext, then type-2 unpadding into `out_cap` bytes.
pub open spec fn spec_decrypt(st: AuthModel, key_ref: u8, cipher: Seq<u8>, out_cap: int, host: Option<Seq<u8>>, log: Seq<Option<Response>>, at: int)
    -> SFlow<(Result<Seq<u8>, ()>, AuthModel)> {
    if cipher.len() != RSA_BLOCK_LEN {
        SFlow::Done((Err(()), st), at)
    } else {
        then(
            spec_rsa_private(st, key_ref, cipher, host, log, at),
            |v: (Result<Seq<u8>, ()>, AuthModel), n: int| match v.0 {
                Ok(block) => match type2_message(block) {
                    Some(m) => if m.len() <= out_cap { SFlow::Done((Ok(m), v.1), n) } else { SFlow::Done((Err(()), v.1), n) },
                    None => SFlow::Done((Err(()), v.1), n),
                },
                Err(_) => SFlow::Done((Err(()), v.1), n),
            },
        )
    }
}

pub fn decrypt(
    st: &AuthState,
    key_ref: u8,
    cipher: &[u8],
    out_cap: usize,
    host: &Option<Vec<u8>>,
    log: &[Option<Response>],
    at: usize,
) -> (r: Flow<(Result<Vec<u8>, ()>, AuthState)>)
    requires
        st.wf(),
        host matches Some(h) ==> h@.len() == 8,
        at <= log@.len(),
    ensures
        flow_matches(
            r,
            spec_decrypt(st@, key_ref, cipher@, out_cap as int, match host { Some(h) => Some(h@), None => None }, log@, at as int),
            |a, b| same_bytes_auth(a, b),
        ),
        flow_within(r, at as int, log@.len() as int),
{
    if cipher.len() != RSA_BLOCK_LEN {
        return Flow::Done((Err(()), st.copy()), at);
    }
    match rsa_private(st, key_ref, cipher, host, log, at) {
        Flow::Transmit(c) => Flow::Transmit(c),
        Flow::Done((Err(_), s), n) => Flow::Done((Err(()), s), n),
        Flow::Done((Ok(block), s), n) => match pkcs1_v15_unpad_type2(&block) {
            Ok(m) => if m.len() <= out_cap {
                Flow::Done((Ok(m), s), n)
            } else {
                Flow::Done((Err(()), s), n)
            },
            Err(()) => Flow::Done((Err(()), s), n),
        },
    }
}

/// A private-key operation needs a fresh login: with no PIN cached (after
/// the state is cleared, or after a login that was not accepted), signing,
/// decrypting and the raw operation end at once with an error, send
/// nothing and leave the state as it was.
pub proof fn lemma_private_op_needs_login(
    st: AuthModel,
    key_ref: u8,
    data: Seq<u8>,
    out_cap: int,
    host: Option<Seq<u8>>,
    log: Seq<Option<Response>>,
    at: int,
)
    requires
        st.pin is None,
    ensures
        spec_sign(st, key_ref, data, out_cap, host, log, at) == SFlow::Done((Err::<Seq<u8>, ()>(()), st), at),
        spec_decrypt(st, key_ref, data, out_cap, host, log, at) == SFlow::Done((Err::<Seq<u8>, ()>(()), st), at),
        spec_rsa_private_op(st, key_ref, data, out_cap, host, log, at) == SFlow::Done((Err::<Seq<u8>, ()>(()), st), at),
{
    assert(spec_prepare_for_private_op(st, host, log, at) == SFlow::Done((Err::<(), ()>(()), st), at));
    assert(spec_rsa_private(st, key_ref, data, host, log, at) == SFlow::Done((Err::<Seq<u8>, ()>(()), st), at));
    assert(spec_rsa_private(st, key_ref, type1_block(data, RSA_BLOCK_LEN as nat), host, log, at)
        == SFlow::Done((Err::<Seq<u8>, ()>(()), st), at));
}

/// A gen2 login: a PIN of no bytes or more than [`PIN_MAX`] is an error with
/// nothing sent and nothing changed; a login that is not accepted leaves the
/// channel closed and no PIN cached; an accepted one caches the PIN and
/// keeps the channel open.
pub proof fn lemma_gen2_login_outcomes(st: AuthModel, pin: Seq<u8>, host: Option<Seq<u8>>, log: Seq<Option<Response>>, at: int)
    ensures
        pin.len() == 0 || pin.len() > PIN_MAX ==> spec_verify_pin(st, pin, host, log, at) == SFlow::Done((PinResult::Error, st), at),
        0 < pin.len() <= PIN_MAX ==> (spec_verify_pin(st, pin, host, log, at) matches SFlow::Done((p, a), n)
            ==> if p == PinResult::Verified { a.pin == Some(pin) } else { a.pin is None && !a.scp.open }),
{
    if 0 < pin.len() <= PIN_MAX {
        let st1 = AuthModel { scp: closed_model(), pin: None, keys: st.keys };
        match spec_diverse_static_keys(st.keys, log, at) {
            SFlow::Transmit(_) => {},
            SFlow::Done(k, n1) => match k {
                Err(_) => {},
                Ok(keys) => {
                    match spec_open_scp03(keys.0, keys.1, host, log, n1) {
                        SFlow::Transmit(_) => {},
                        SFlow::Done(o, n2) => match o {
                            Err(_) => {},
                            Ok(sess) => {
                                match spec_sm_verify(sess, pin, log, n2) {
                                    SFlow::Transmit(_) => {},
                                    SFlow::Done(v, n3) => {},
                                }
                            },
                        },
                    }
                },
            },
        }
    }
}

/// Key-container READ RECORD (`80 B2 keyRef component 00`; components `03`
/// and `04` are the modulus halves): the data of a non-empty `90 00` answer.
pub open spec fn spec_read_pubkey_component(key_ref: u8, component: u8, log: Seq<Option<Response>>, at: int)
    -> SFlow<Result<Seq<u8>, ()>> {
    if at >= log.len() {
        SFlow::Transmit(seq![0x80u8, 0xB2u8, key_ref, component, 0x00u8])
    } else {
        SFlow::Done(nonempty_ok_data(log[at]), at + 1)
    }
}

pub fn read_pubkey_component(key_ref: u8, component: u8, log: &[Option<Response>], at: usize) -> (r: Flow<Result<Vec<u8>, ()>>)
    requires
        at <= log@.len(),
    ensures
        same_bytes_flow(r, spec_read_pubkey_component(key_ref, component, log@, at as int)),
        flow_within(r, at as int, log@.len() as int),
{
    if at >= log.len() {
        let cmd: Vec<u8> = vec![0x80, 0xB2, key_ref, component, 0x00];
        assert(cmd@ =~= seq![0x80u8, 0xB2u8, key_ref, component, 0x00u8]);
        return Flow::Transmit(cmd);
    }
    Flow::Done(take_nonempty_ok(log, at), at + 1)
}

} // verus!
