//! Direct HiCOS V3 / GPPKI ID v1 card access: card profile detection,
//! 3DES-protected VERIFY, the proprietary `EA`/`C1` signature, and the
//! GlobalPlatform SCP03 channel with its own AES-CMAC.

use crate::bytes::{bytes_to_vec, iso_pad16, pad80, sub_vec, xor_bytes, xor_vec};
use crate::apdu::{
    answered, flow_matches, flow_within, pin_status, reply_is, same_bytes_flow, same_flow, then, Flow, Response, SFlow,
    PIN_MAX, RSA_BLOCK_LEN,
};
use crate::bytes::bytes_eq;
use crate::crypto;
use vstd::prelude::*;

pub use crate::apdu::PinResult;

verus! {

/// Fixed two-key 3DES key protecting VERIFY on HiCOS V3 cards (`CHTTL8f0HiCardV2`).
pub const HICOS_V3_KEY: [u8; 16] = [
    0x43, 0x48, 0x54, 0x54, 0x4c, 0x38, 0x66, 0x30, 0x48, 0x69, 0x43, 0x61, 0x72, 0x64, 0x56, 0x32,
];

/// GPPKI ID v1 applet AID.
pub const GPPKI_ID_V1_AID: [u8; 16] = [
    0xA0, 0x00, 0x00, 0x02, 0x83, 0x00, 0x00, 0x06, 0x22, 0x01, 0x69, 0x64, 0x00, 0x01, 0x01, 0x01,
];

/// GlobalPlatform card-manager AID of GPPKI cards.
pub const GP_MANAGEMENT_AID: [u8; 15] = [
    0xA0, 0x00, 0x00, 0x02, 0x83, 0xFF, 0x08, 0x86, 0x92, 0x53, 0x53, 0x89, 0xC0, 0x00, 0x14,
];

/// GlobalPlatform issuer security domain AID.
pub const GP_ISD_AID: [u8; 7] = [0xA0, 0x00, 0x00, 0x01, 0x51, 0x00, 0x00];

/// PIN reference of the GPPKI user PIN.
pub const GPPKI_USER_PIN_REF: u8 = 0x01;

/// Root key from which the GPPKI static SCP03 keys are diversified.
pub const GPPKI_V1_ROOT_KEY: [u8; 16] = [
    0xDC, 0x4B, 0xAD, 0x21, 0xCF, 0x18, 0x42, 0xD5, 0xBE, 0x3E, 0x80, 0x7A, 0x56, 0x9F, 0x62, 0xA2,
];

/// Sixteen zero bytes.
pub open spec fn zero_block() -> Seq<u8> {
    Seq::new(16, |i: int| 0u8)
}

/// A 128-bit string shifted left by one bit.
pub open spec fn shl1_128(x: Seq<u8>) -> Seq<u8> {
    Seq::new(16, |i: int| ((x[i] << 1u8) | (if i < 15 { x[i + 1] >> 7u8 } else { 0u8 })) as u8)
}

/// CMAC subkey doubling in GF(2^128): shift left, fold in `0x87` on carry.
pub open spec fn cmac_double(x: Seq<u8>) -> Seq<u8> {
    let s = shl1_128(x);
    if x[0] & 0x80 != 0 {
        s.update(15, s[15] ^ 0x87u8)
    } else {
        s
    }
}

/// CBC chaining value after running the whole 16-byte blocks of `data`
/// through AES-128 from `state`.
pub open spec fn aes_mac_chain(key: Seq<u8>, state: Seq<u8>, data: Seq<u8>) -> Seq<u8>
    decreases data.len(),
{
    if data.len() < 16 {
        state
    } else {
        aes_mac_chain(key, crypto::aes128_encrypt_value(key, xor_bytes(state, data.take(16))), data.skip(16))
    }
}

/// AES-128 CMAC (NIST SP 800-38B) of `data` under `key`.
pub open spec fn aes_cmac_tag(key: Seq<u8>, data: Seq<u8>) -> Seq<u8> {
    let k1 = cmac_double(crypto::aes128_encrypt_value(key, zero_block()));
    let k2 = cmac_double(k1);
    let n: int = if data.len() == 0 { 1 } else { (data.len() as int + 15) / 16 };
    let last = if data.len() > 0 && data.len() % 16 == 0 {
        xor_bytes(data.subrange((n - 1) * 16, n * 16), k1)
    } else {
        xor_bytes(iso_pad16(data.skip((n - 1) * 16)), k2)
    };
    crypto::aes128_encrypt_value(key, xor_bytes(aes_mac_chain(key, zero_block(), data.take((n - 1) * 16)), last))
}

/// A 128-bit string shifted left by one bit.
pub fn shift_left_128(input: &[u8]) -> (output: Vec<u8>)
    requires
        input@.len() == 16,
    ensures
        output@ == shl1_128(input@),
{
    let mut output: Vec<u8> = vec![0u8; 16];
    let mut carry: u8 = 0;
    let mut index: usize = 16;
    while index > 0
        invariant
            input@.len() == 16,
            output@.len() == 16,
            index <= 16,
            carry == (if index < 16 { input@[index as int] >> 7u8 } else { 0u8 }),
            forall|j: int| index <= j < 16 ==> output@[j] == shl1_128(input@)[j],
        decreases index,
    {
        index -= 1;
        output.set(index, (input[index] << 1) | carry);
        carry = input[index] >> 7;
    }
    assert(output@ =~= shl1_128(input@));
    output
}

fn cmac_subkey(l: &[u8]) -> (k: Vec<u8>)
    requires
        l@.len() == 16,
    ensures
        k@ == cmac_double(l@),
        k@.len() == 16,
{
    let mut k = shift_left_128(l);
    if l[0] & 0x80 != 0 {
        let v = k[15] ^ 0x87;
        k.set(15, v);
    }
    k
}

/// AES-128 CMAC of `data` under `key`.
pub fn aes_cmac(key: &[u8], data: &[u8]) -> (r: Result<Vec<u8>, ()>)
    requires
        key@.len() == 16,
    ensures
        r matches Ok(t) && t@ == aes_cmac_tag(key@, data@) && t@.len() == 16,
{
    let zero: Vec<u8> = vec![0u8; 16];
    assert(zero@ =~= zero_block());
    let l = crypto::aes128_encrypt(key, &zero);
    let subkey1 = cmac_subkey(&l);
    let subkey2 = cmac_subkey(&subkey1);
    let block_count: usize = if data.len() == 0 {
        1
    } else {
        data.len() / 16 + if data.len() % 16 == 0 { 0 } else { 1 }
    };
    assert(block_count as int == if data@.len() == 0 { 1int } else { (data@.len() as int + 15) / 16 });
    let complete_last_block = data.len() != 0 && data.len() % 16 == 0;
    let start = (block_count - 1) * 16;
    let last = if complete_last_block {
        let b = sub_vec(data, start, start + 16);
        xor_vec(&b, &subkey1)
    } else {
        let tail = sub_vec(data, start, data.len());
        assert(tail@ =~= data@.skip(start as int));
        let p = pad80(&tail);
        xor_vec(&p, &subkey2)
    };
    let mut state: Vec<u8> = vec![0u8; 16];
    let mut i: usize = 0;
    assert(data@.take(start as int).skip(0) =~= data@.take(start as int));
    assert(state@ =~= zero_block());
    while i < start
        invariant
            key@.len() == 16,
            start <= data@.len(),
            start % 16 == 0,
            i % 16 == 0,
            i <= start,
            state@.len() == 16,
            aes_mac_chain(key@, zero_block(), data@.take(start as int))
                == aes_mac_chain(key@, state@, data@.take(start as int).skip(i as int)),
        decreases start - i,
    {
        let chunk = vstd::slice::slice_subrange(data, i, i + 16);
        assert(data@.take(start as int).skip(i as int).take(16) =~= chunk@);
        assert(data@.take(start as int).skip(i as int).skip(16) =~= data@.take(start as int).skip(i + 16));
        let x = xor_vec(&state, chunk);
        state = crypto::aes128_encrypt(key, &x);
        i += 16;
    }
    assert(data@.take(start as int).skip(i as int).len() == 0);
    let x = xor_vec(&state, &last);
    assert(x@.len() == 16);
    let tag = crypto::aes128_encrypt(key, &x);
    Ok(tag)
}

/// AES-128 CBC ciphertext of the whole 16-byte blocks of `data`, chained
/// from `prev`.
pub open spec fn aes_cbc_chain(key: Seq<u8>, prev: Seq<u8>, data: Seq<u8>) -> Seq<u8>
    decreases data.len(),
{
    if data.len() < 16 {
        Seq::empty()
    } else {
        let c = crypto::aes128_encrypt_value(key, xor_bytes(data.take(16), prev));
        c + aes_cbc_chain(key, c, data.skip(16))
    }
}

/// AES-128 CBC encryption of the whole 16-byte blocks of `data`.
pub fn aes_cbc_blocks(key: &[u8], iv: &[u8], data: &[u8]) -> (out: Vec<u8>)
    requires
        key@.len() == 16,
        iv@.len() == 16,
        data@.len() % 16 == 0,
    ensures
        out@ == aes_cbc_chain(key@, iv@, data@),
{
    let mut previous = bytes_to_vec(iv);
    let mut out: Vec<u8> = Vec::new();
    let mut i: usize = 0;
    assert(data@.skip(0) =~= data@);
    assert(out@ + aes_cbc_chain(key@, iv@, data@) =~= aes_cbc_chain(key@, iv@, data@));
    while i < data.len()
        invariant
            key@.len() == 16,
            data@.len() % 16 == 0,
            i % 16 == 0,
            i <= data@.len(),
            previous@.len() == 16,
            out@ + aes_cbc_chain(key@, previous@, data@.skip(i as int))
                == aes_cbc_chain(key@, iv@, data@),
        decreases data@.len() - i,
    {
        let chunk = vstd::slice::slice_subrange(data, i, i + 16);
        let blk = xor_vec(chunk, &previous);
        assert(data@.skip(i as int).take(16) =~= chunk@);
        assert(data@.skip(i as int).skip(16) =~= data@.skip(i + 16));
        let c = crypto::aes128_encrypt(key, &blk);
        let ghost old_out = out@;
        out.extend_from_slice(&c);
        assert(old_out + (c@ + aes_cbc_chain(key@, c@, data@.skip(i + 16)))
            =~= out@ + aes_cbc_chain(key@, c@, data@.skip(i + 16)));
        previous = c;
        i += 16;
    }
    assert(data@.skip(i as int).len() == 0);
    assert(out@ + Seq::<u8>::empty() =~= out@);
    out
}

/// AES-128 CBC encryption of `data` padded per ISO/IEC 7816-4.
pub fn aes_cbc_encrypt_iso7816(key: &[u8], iv: &[u8], data: &[u8]) -> (r: Result<Vec<u8>, ()>)
    requires
        key@.len() == 16,
        iv@.len() == 16,
    ensures
        r matches Ok(c) && c@ == aes_cbc_chain(key@, iv@, iso_pad16(data@)),
{
    let padded = pad80(data);
    Ok(aes_cbc_blocks(key, iv, &padded))
}

/// SCP03 derivation data (NIST SP 800-108 counter mode, one block).
pub open spec fn scp03_context(purpose: u8, output_bits: u8, host: Seq<u8>, card: Seq<u8>) -> Seq<u8> {
    Seq::new(11, |i: int| 0u8) + seq![purpose, 0u8, 0u8, output_bits, 1u8] + host + card
}

/// SCP03 key derivation: CMAC of the derivation data under `key`.
pub fn scp03_derive(
    purpose: u8,
    output_bits: u8,
    key: &[u8],
    host_challenge: &[u8],
    card_challenge: &[u8],
) -> (r: Result<Vec<u8>, ()>)
    requires
        key@.len() == 16,
        host_challenge@.len() == 8,
        card_challenge@.len() == 8,
    ensures
        r matches Ok(k) && k@ == aes_cmac_tag(
            key@,
            scp03_context(purpose, output_bits, host_challenge@, card_challenge@),
        ) && k@.len() == 16,
{
    let mut derivation: Vec<u8> = vec![0u8; 11];
    derivation.push(purpose);
    derivation.push(0);
    derivation.push(0);
    derivation.push(output_bits);
    derivation.push(0x01);
    derivation.extend_from_slice(host_challenge);
    derivation.extend_from_slice(card_challenge);
    assert(derivation@ =~= scp03_context(purpose, output_bits, host_challenge@, card_challenge@));
    aes_cmac(key, &derivation)
}

/// Derivation data of static key `index` (0: ENC, 1: MAC, 2: DEK).
pub open spec fn gppki_key_context(index: int, diversification: Seq<u8>) -> Seq<u8> {
    let purpose: u8 = if index == 0 { 0x04 } else if index == 1 { 0x06 } else { 0x0C };
    Seq::new(11, |i: int| 0u8) + seq![purpose, 0u8, 0u8, 0x80u8, 1u8, (index + 1) as u8]
        + diversification + GP_MANAGEMENT_AID@.subrange(10, 15)
}

/// The three static SCP03 keys (ENC, MAC, DEK) of a GPPKI card, diversified
/// from the root key with the card's 10-byte diversification data.
pub fn diversify_gppki_keys(diversification_data: &[u8]) -> (r: Result<Vec<Vec<u8>>, ()>)
    requires
        diversification_data@.len() == 10,
    ensures
        r matches Ok(keys) && keys@.len() == 3 && forall|k: int| 0 <= k < 3 ==>
            #[trigger] keys@[k]@ == aes_cmac_tag(GPPKI_V1_ROOT_KEY@, gppki_key_context(k, diversification_data@))
            && keys@[k]@.len() == 16,
{
    let mut keys: Vec<Vec<u8>> = Vec::new();
    let purposes: [u8; 3] = [0x04, 0x06, 0x0C];
    let root = GPPKI_V1_ROOT_KEY;
    let mgmt = GP_MANAGEMENT_AID;
    let mut index: usize = 0;
    while index < 3
        invariant
            index <= 3,
            keys@.len() == index,
            purposes@ == seq![0x04u8, 0x06u8, 0x0Cu8],
            root@ == GPPKI_V1_ROOT_KEY@,
            mgmt@ == GP_MANAGEMENT_AID@,
            diversification_data@.len() == 10,
            forall|k: int| 0 <= k < index ==>
                #[trigger] keys@[k]@ == aes_cmac_tag(GPPKI_V1_ROOT_KEY@, gppki_key_context(k, diversification_data@))
                && keys@[k]@.len() == 16,
        decreases 3 - index,
    {
        let mut derivation: Vec<u8> = vec![0u8; 11];
        derivation.push(purposes[index]);
        derivation.push(0);
        derivation.push(0);
        derivation.push(0x80);
        derivation.push(0x01);
        derivation.push(index as u8 + 1);
        derivation.extend_from_slice(diversification_data);
        let tail = vstd::slice::slice_subrange(&mgmt, 10, 15);
        derivation.extend_from_slice(tail);
        assert(derivation@ =~= gppki_key_context(index as int, diversification_data@));
        let key = match aes_cmac(&root, &derivation) {
            Ok(k) => k,
            Err(_) => return Err(()),
        };
        keys.push(key);
        index += 1;
    }
    Ok(keys)
}

/// SCP03 session state of an open GPPKI secure channel.
pub struct Scp03Session {
    pub encryption_key: Vec<u8>,
    pub mac_key: Vec<u8>,
    pub mac_chaining_value: Vec<u8>,
    pub encryption_counter: Vec<u8>,
}

/// What an SCP03 session holds.
#[verifier::ext_equal]
pub struct GpSessionModel {
    pub encryption_key: Seq<u8>,
    pub mac_key: Seq<u8>,
    pub mac_chaining_value: Seq<u8>,
    pub encryption_counter: Seq<u8>,
}

impl View for Scp03Session {
    type V = GpSessionModel;

    open spec fn view(&self) -> GpSessionModel {
        GpSessionModel {
            encryption_key: self.encryption_key@,
            mac_key: self.mac_key@,
            mac_chaining_value: self.mac_chaining_value@,
            encryption_counter: self.encryption_counter@,
        }
    }
}

impl Scp03Session {
    /// All four session values are 16 bytes long.
    pub open spec fn wf(&self) -> bool {
        &&& self.encryption_key@.len() == 16
        &&& self.mac_key@.len() == 16
        &&& self.mac_chaining_value@.len() == 16
        &&& self.encryption_counter@.len() == 16
    }
}

/// The encrypted PIN field of a secure-messaging VERIFY.
pub open spec fn gppki_encrypted_pin(session: GpSessionModel, pin: Seq<u8>) -> Seq<u8> {
    let iv = crypto::aes128_encrypt_value(session.encryption_key, session.encryption_counter);
    aes_cbc_chain(session.encryption_key, iv, iso_pad16(crate::apdu::pin_field(pin)))
}

/// The secure-messaging VERIFY command before its MAC is appended.
pub open spec fn gppki_verify_head(session: GpSessionModel, pin_ref: u8, pin: Seq<u8>) -> Seq<u8> {
    let enc = gppki_encrypted_pin(session, pin);
    seq![0x04u8, 0x20u8, 0x00u8, pin_ref, (enc.len() + 8) as u8] + enc
}

/// The complete secure-messaging VERIFY, when the PIN fits: header,
/// encrypted PIN field, and the first 8 bytes of the new chaining value.
pub open spec fn gppki_verify_cmd(session: GpSessionModel, pin_ref: u8, pin: Seq<u8>) -> Option<Seq<u8>> {
    if pin.len() == 0 || pin.len() > crate::apdu::PIN_MAX || gppki_encrypted_pin(session, pin).len() + 8 > 255 {
        None
    } else {
        let head = gppki_verify_head(session, pin_ref, pin);
        Some(head + aes_cmac_tag(session.mac_key, session.mac_chaining_value + head).take(8))
    }
}

/// Wrap VERIFY for the GPPKI applet under SCP03 (C-MAC and C-DECRYPTION):
/// the PIN field is encrypted, the command MACed, and the MAC chaining value
/// of the session advanced.
pub fn wrap_gppki_verify(session: &mut Scp03Session, pin_ref: u8, pin: &[u8]) -> (r: Result<Vec<u8>, ()>)
    requires
        old(session).wf(),
    ensures
        final(session).wf(),
        pin@.len() == 0 || pin@.len() > crate::apdu::PIN_MAX ==> r is Err && *final(session) == *old(session),
        0 < pin@.len() <= crate::apdu::PIN_MAX && gppki_encrypted_pin(old(session)@, pin@).len() + 8 > 255
            ==> r is Err && *final(session) == *old(session),
        0 < pin@.len() <= crate::apdu::PIN_MAX && gppki_encrypted_pin(old(session)@, pin@).len() + 8 <= 255
            ==> ({
                let head = gppki_verify_head(old(session)@, pin_ref, pin@);
                let mcv = aes_cmac_tag(old(session).mac_key@, old(session).mac_chaining_value@ + head);
                &&& final(session).mac_chaining_value@ == mcv
                &&& final(session).encryption_key == old(session).encryption_key
                &&& final(session).mac_key == old(session).mac_key
                &&& final(session).encryption_counter == old(session).encryption_counter
                &&& r matches Ok(cmd) && cmd@ == head + mcv.take(8)
            }),
        match gppki_verify_cmd(old(session)@, pin_ref, pin@) {
            Some(c) => r matches Ok(cmd) && cmd@ == c,
            None => r is Err,
        },
{
    if pin.len() == 0 || pin.len() > crate::apdu::PIN_MAX {
        return Err(());
    }
    let pin_field = crate::apdu::pin_block(pin);
    let encryption_iv = crypto::aes128_encrypt(&session.encryption_key, &session.encryption_counter);
    let encrypted = match aes_cbc_encrypt_iso7816(&session.encryption_key, &encryption_iv, &pin_field) {
        Ok(e) => e,
        Err(_) => return Err(()),
    };
    if encrypted.len() > 255 - 8 {
        return Err(());
    }
    let wrapped_length = encrypted.len() + 8;
    let mut command: Vec<u8> = vec![0x04, 0x20, 0x00, pin_ref, wrapped_length as u8];
    command.extend_from_slice(&encrypted);
    assert(command@ =~= gppki_verify_head(old(session)@, pin_ref, pin@));
    let ghost head = command@;
    let mut mac_input = bytes_to_vec(&session.mac_chaining_value);
    mac_input.extend_from_slice(&command);
    assert(mac_input@ =~= old(session).mac_chaining_value@ + head);
    let mcv = match aes_cmac(&session.mac_key, &mac_input) {
        Ok(m) => m,
        Err(_) => return Err(()),
    };
    session.mac_chaining_value = mcv;
    let tag = sub_vec(&session.mac_chaining_value, 0, 8);
    command.extend_from_slice(&tag);
    assert(command@ =~= head + session.mac_chaining_value@.take(8));
    Ok(command)
}

/// Card access profile, detected by the first SELECT MF.
#[derive(Clone, Copy, PartialEq, Eq, Structural, Debug)]
pub enum CardProfile {
    Unknown,
    /// HiCOS file system addressed directly (class `80` or `00`).
    DirectHicos,
    /// GPPKI ID v1 applet.
    GpPkiIdV1,
}

/// Per-connection state: class byte, whether it is settled, profile.
#[derive(Clone, Copy, PartialEq, Eq, Structural, Debug)]
pub struct HicosState {
    pub cla: u8,
    pub cla_locked: bool,
    pub profile: CardProfile,
}

/// Nothing learned about the card yet.
pub open spec fn hicos_initial() -> HicosState {
    HicosState { cla: 0x80, cla_locked: false, profile: CardProfile::Unknown }
}

/// Forget the class byte and profile.
pub fn reset_cla(st: &mut HicosState)
    ensures
        *final(st) == hicos_initial(),
{
    *st = HicosState { cla: 0x80, cla_locked: false, profile: CardProfile::Unknown };
}

/// Detected card profile.
pub fn card_profile(st: &HicosState) -> (p: CardProfile)
    ensures
        p == st.profile,
{
    st.profile
}

/// SELECT by AID with `P2 = p2`, Le `00` when `le`.
pub open spec fn select_aid_cmd(aid: Seq<u8>, p2: u8, le: bool) -> Seq<u8> {
    seq![0x00u8, 0xA4u8, 0x04u8, p2, aid.len() as u8] + aid + if le { seq![0x00u8] } else { Seq::empty() }
}

/// SELECT by AID: refused for an empty AID or one over 255 bytes; succeeds on `90 00`.
pub open spec fn spec_select_aid(aid: Seq<u8>, p2: u8, le: bool, log: Seq<Option<Response>>, at: int) -> SFlow<Result<(), ()>> {
    if aid.len() == 0 || aid.len() > 255 {
        SFlow::Done(Err(()), at)
    } else if at >= log.len() {
        SFlow::Transmit(select_aid_cmd(aid, p2, le))
    } else {
        SFlow::Done(if answered(log[at], 0x9000) { Ok(()) } else { Err(()) }, at + 1)
    }
}

fn select_aid(aid: &[u8], p2: u8, le: bool, log: &[Option<Response>], at: usize) -> (r: Flow<Result<(), ()>>)
    requires
        at <= log@.len(),
    ensures
        same_flow(r, spec_select_aid(aid@, p2, le, log@, at as int)),
        flow_within(r, at as int, log@.len() as int),
{
    if aid.len() == 0 || aid.len() > 255 {
        return Flow::Done(Err(()), at);
    }
    if at >= log.len() {
        let mut cmd: Vec<u8> = vec![0x00, 0xA4, 0x04, p2, aid.len() as u8];
        cmd.extend_from_slice(aid);
        if le {
            cmd.push(0x00);
        }
        assert(cmd@ =~= select_aid_cmd(aid@, p2, le));
        return Flow::Transmit(cmd);
    }
    Flow::Done(if reply_is(log, at, 0x9000) { Ok(()) } else { Err(()) }, at + 1)
}

/// The state after the MF answered to class `cla`.
pub open spec fn direct_state(cla: u8) -> HicosState {
    HicosState { cla, cla_locked: true, profile: CardProfile::DirectHicos }
}

/// The state after the GPPKI ID v1 applet answered.
pub open spec fn gppki_state() -> HicosState {
    HicosState { cla: 0x00, cla_locked: true, profile: CardProfile::GpPkiIdV1 }
}

/// SELECT MF: the applet on a GPPKI card, the MF with the settled class
/// byte, or, the first time, the MF with class `80`, then `00`, then the
/// GPPKI applet; whichever answers sets the profile.
pub open spec fn spec_select_mf(st: HicosState, log: Seq<Option<Response>>, at: int) -> SFlow<(Result<(), ()>, HicosState)> {
    if st.profile == CardProfile::GpPkiIdV1 {
        then(spec_select_aid(GPPKI_ID_V1_AID@, 0x0C, true, log, at), |r: Result<(), ()>, n: int| SFlow::Done((r, st), n))
    } else if st.cla_locked {
        then(crate::apdu::spec_select_mf_with_cla(st.cla, log, at), |r: Result<(), ()>, n: int| SFlow::Done((r, st), n))
    } else {
        then(
            crate::apdu::spec_select_mf_with_cla(0x80, log, at),
            |r1: Result<(), ()>, n1: int| if r1 is Ok {
                SFlow::Done((Ok(()), direct_state(0x80)), n1)
            } else {
                then(
                    crate::apdu::spec_select_mf_with_cla(0x00, log, n1),
                    |r2: Result<(), ()>, n2: int| if r2 is Ok {
                        SFlow::Done((Ok(()), direct_state(0x00)), n2)
                    } else {
                        then(
                            spec_select_aid(GPPKI_ID_V1_AID@, 0x0C, true, log, n2),
                            |r3: Result<(), ()>, n3: int| if r3 is Ok {
                                SFlow::Done((Ok(()), gppki_state()), n3)
                            } else {
                                SFlow::Done((Err(()), st), n3)
                            },
                        )
                    },
                )
            },
        )
    }
}

/// Relation of an outcome and state to what they describe.
pub open spec fn same_unit_state(a: (Result<(), ()>, HicosState), b: (Result<(), ()>, HicosState)) -> bool {
    a == b
}

pub fn select_mf(st: &HicosState, log: &[Option<Response>], at: usize) -> (r: Flow<(Result<(), ()>, HicosState)>)
    requires
        at <= log@.len(),
    ensures
        flow_matches(r, spec_select_mf(*st, log@, at as int), |a, b| same_unit_state(a, b)),
        flow_within(r, at as int, log@.len() as int),
{
    let aid = GPPKI_ID_V1_AID;
    if st.profile == CardProfile::GpPkiIdV1 {
        return match select_aid(&aid, 0x0C, true, log, at) {
            Flow::Transmit(c) => Flow::Transmit(c),
            Flow::Done(r, n) => Flow::Done((r, *st), n),
        };
    }
    if st.cla_locked {
        return match crate::apdu::select_mf_with_cla(st.cla, log, at) {
            Flow::Transmit(c) => Flow::Transmit(c),
            Flow::Done(r, n) => Flow::Done((r, *st), n),
        };
    }
    let n1 = match crate::apdu::select_mf_with_cla(0x80, log, at) {
        Flow::Transmit(c) => return Flow::Transmit(c),
        Flow::Done(Ok(()), n) => return Flow::Done((Ok(()), HicosState { cla: 0x80, cla_locked: true, profile: CardProfile::DirectHicos }), n),
        Flow::Done(Err(()), n) => n,
    };
    let n2 = match crate::apdu::select_mf_with_cla(0x00, log, n1) {
        Flow::Transmit(c) => return Flow::Transmit(c),
        Flow::Done(Ok(()), n) => return Flow::Done((Ok(()), HicosState { cla: 0x00, cla_locked: true, profile: CardProfile::DirectHicos }), n),
        Flow::Done(Err(()), n) => n,
    };
    match select_aid(&aid, 0x0C, true, log, n2) {
        Flow::Transmit(c) => Flow::Transmit(c),
        Flow::Done(Ok(()), n) => Flow::Done((Ok(()), HicosState { cla: 0x00, cla_locked: true, profile: CardProfile::GpPkiIdV1 }), n),
        Flow::Done(Err(()), n) => Flow::Done((Err(()), *st), n),
    }
}

/// SELECT of file `fid`: `00 A4 00 04 02 fid 00` on a GPPKI card,
/// `cla A4 00 00 02 fid` otherwise.
pub open spec fn select_fid_cmd(st: HicosState, fid: u16) -> Seq<u8> {
    if st.profile == CardProfile::GpPkiIdV1 {
        seq![0x00u8, 0xA4u8, 0x00u8, 0x04u8, 0x02u8, (fid >> 8u16) as u8, (fid & 0xFFu16) as u8, 0x00u8]
    } else {
        seq![st.cla, 0xA4u8, 0x00u8, 0x00u8, 0x02u8, (fid >> 8u16) as u8, (fid & 0xFFu16) as u8]
    }
}

/// SELECT file `fid`: succeeds on `90 00`.
pub open spec fn spec_select_fid(st: HicosState, fid: u16, log: Seq<Option<Response>>, at: int) -> SFlow<Result<(), ()>> {
    if at >= log.len() {
        SFlow::Transmit(select_fid_cmd(st, fid))
    } else {
        SFlow::Done(if answered(log[at], 0x9000) { Ok(()) } else { Err(()) }, at + 1)
    }
}

pub fn select_fid(st: &HicosState, fid: u16, log: &[Option<Response>], at: usize) -> (r: Flow<Result<(), ()>>)
    requires
        at <= log@.len(),
    ensures
        same_flow(r, spec_select_fid(*st, fid, log@, at as int)),
        flow_within(r, at as int, log@.len() as int),
{
    if at >= log.len() {
        let cmd = if st.profile == CardProfile::GpPkiIdV1 {
            vec![0x00, 0xA4, 0x00, 0x04, 0x02, (fid >> 8) as u8, (fid & 0xFF) as u8, 0x00]
        } else {
            vec![st.cla, 0xA4, 0x00, 0x00, 0x02, (fid >> 8) as u8, (fid & 0xFF) as u8]
        };
        assert(cmd@ =~= select_fid_cmd(*st, fid));
        return Flow::Transmit(cmd);
    }
    Flow::Done(if reply_is(log, at, 0x9000) { Ok(()) } else { Err(()) }, at + 1)
}

/// Selecting the remaining components of `path` from offset `i`.
pub open spec fn spec_select_path_from(st: HicosState, path: Seq<u8>, from_mf: bool, i: int, log: Seq<Option<Response>>, at: int)
    -> SFlow<Result<(), ()>>
    decreases path.len() - i,
{
    if i < 0 || i + 1 >= path.len() {
        SFlow::Done(Ok(()), at)
    } else if i == 0 && path[0] == 0x3F && path[1] == 0x00 && from_mf {
        spec_select_path_from(st, path, from_mf, i + 2, log, at)
    } else {
        match spec_select_fid(st, crate::apdu::path_fid(path, i), log, at) {
            SFlow::Transmit(c) => SFlow::Transmit(c),
            SFlow::Done(Err(()), n) => SFlow::Done(Err(()), n),
            SFlow::Done(Ok(()), n) => spec_select_path_from(st, path, from_mf, i + 2, log, n),
        }
    }
}

/// SELECT along a path of file identifiers (even, non-empty), optionally from the MF.
pub open spec fn spec_select_path(st: HicosState, path: Seq<u8>, from_mf: bool, log: Seq<Option<Response>>, at: int)
    -> SFlow<(Result<(), ()>, HicosState)> {
    if path.len() == 0 || path.len() % 2 != 0 {
        SFlow::Done((Err(()), st), at)
    } else if from_mf {
        then(
            spec_select_mf(st, log, at),
            |v: (Result<(), ()>, HicosState), n: int| if v.0 is Err {
                SFlow::Done((Err(()), v.1), n)
            } else {
                then(spec_select_path_from(v.1, path, from_mf, 0, log, n), |r: Result<(), ()>, m: int| SFlow::Done((r, v.1), m))
            },
        )
    } else {
        then(spec_select_path_from(st, path, from_mf, 0, log, at), |r: Result<(), ()>, m: int| SFlow::Done((r, st), m))
    }
}

pub fn select_path(st: &HicosState, path: &[u8], from_mf: bool, log: &[Option<Response>], at: usize)
    -> (r: Flow<(Result<(), ()>, HicosState)>)
    requires
        at <= log@.len(),
    ensures
        flow_matches(r, spec_select_path(*st, path@, from_mf, log@, at as int), |a, b| same_unit_state(a, b)),
        flow_within(r, at as int, log@.len() as int),
{
    if path.len() == 0 || path.len() % 2 != 0 {
        return Flow::Done((Err(()), *st), at);
    }
    let mut s = *st;
    let mut pos = at;
    if from_mf {
        match select_mf(st, log, at) {
            Flow::Transmit(c) => return Flow::Transmit(c),
            Flow::Done((Err(()), s2), n) => return Flow::Done((Err(()), s2), n),
            Flow::Done((Ok(()), s2), n) => {
                s = s2;
                pos = n;
            },
        }
    }
    let ghost start = pos;
    let ghost goal = spec_select_path(*st, path@, from_mf, log@, at as int);
    assert(goal == then(spec_select_path_from(s, path@, from_mf, 0, log@, start as int), |r: Result<(), ()>, m: int| SFlow::Done((r, s), m)));
    let mut i: usize = 0;
    while i + 1 < path.len()
        invariant
            path@.len() % 2 == 0,
            i % 2 == 0,
            i <= path@.len(),
            at <= pos <= log@.len(),
            goal == spec_select_path(*st, path@, from_mf, log@, at as int),
            goal == then(spec_select_path_from(s, path@, from_mf, 0, log@, start as int), |r: Result<(), ()>, m: int| SFlow::Done((r, s), m)),
            spec_select_path_from(s, path@, from_mf, 0, log@, start as int)
                == spec_select_path_from(s, path@, from_mf, i as int, log@, pos as int),
        decreases path@.len() - i,
    {
        if i == 0 && path[0] == 0x3F && path[1] == 0x00 && from_mf {
            i += 2;
            continue;
        }
        let fid: u16 = ((path[i] as u16) << 8) | path[i + 1] as u16;
        match select_fid(&s, fid, log, pos) {
            Flow::Transmit(c) => return Flow::Transmit(c),
            Flow::Done(Err(()), n) => return Flow::Done((Err(()), s), n),
            Flow::Done(Ok(()), n) => {
                pos = n;
            },
        }
        i += 2;
    }
    Flow::Done((Ok(()), s), pos)
}

/// Select the key EF `0810`: directly, or else from the MF through `5030`.
pub open spec fn spec_select_hicos_key_ef(st: HicosState, log: Seq<Option<Response>>, at: int) -> SFlow<(Result<(), ()>, HicosState)> {
    then(
        spec_select_fid(st, 0x0810, log, at),
        |r: Result<(), ()>, n: int| if r is Ok {
            SFlow::Done((Ok(()), st), n)
        } else {
            then(
                spec_select_mf(st, log, n),
                |v: (Result<(), ()>, HicosState), n2: int| if v.0 is Err {
                    SFlow::Done((Err(()), v.1), n2)
                } else {
                    then(
                        spec_select_fid(v.1, 0x5030, log, n2),
                        |r3: Result<(), ()>, n3: int| if r3 is Err {
                            SFlow::Done((Err(()), v.1), n3)
                        } else {
                            then(spec_select_fid(v.1, 0x0810, log, n3), |r4: Result<(), ()>, n4: int| SFlow::Done((r4, v.1), n4))
                        },
                    )
                },
            )
        },
    )
}

fn select_hicos_key_ef(st: &HicosState, log: &[Option<Response>], at: usize) -> (r: Flow<(Result<(), ()>, HicosState)>)
    requires
        at <= log@.len(),
    ensures
        flow_matches(r, spec_select_hicos_key_ef(*st, log@, at as int), |a, b| same_unit_state(a, b)),
        flow_within(r, at as int, log@.len() as int),
{
    let n = match select_fid(st, 0x0810, log, at) {
        Flow::Transmit(c) => return Flow::Transmit(c),
        Flow::Done(Ok(()), n) => return Flow::Done((Ok(()), *st), n),
        Flow::Done(Err(()), n) => n,
    };
    let (s, n2) = match select_mf(st, log, n) {
        Flow::Transmit(c) => return Flow::Transmit(c),
        Flow::Done((Err(()), s), n2) => return Flow::Done((Err(()), s), n2),
        Flow::Done((Ok(()), s), n2) => (s, n2),
    };
    let n3 = match select_fid(&s, 0x5030, log, n2) {
        Flow::Transmit(c) => return Flow::Transmit(c),
        Flow::Done(Err(()), n3) => return Flow::Done((Err(()), s), n3),
        Flow::Done(Ok(()), n3) => n3,
    };
    match select_fid(&s, 0x0810, log, n3) {
        Flow::Transmit(c) => Flow::Transmit(c),
        Flow::Done(r, n4) => Flow::Done((r, s), n4),
    }
}

/// Index of the first 6-byte window of `s` at or after `i` that starts
/// with `C0 04` (a key information template), if any.
pub open spec fn key_template_from(s: Seq<u8>, i: int) -> Option<int>
    decreases s.len() - i,
{
    if i < 0 || i + 6 > s.len() {
        None
    } else if s[i] == 0xC0 && s[i + 1] == 0x04 {
        Some(i)
    } else {
        key_template_from(s, i + 1)
    }
}

proof fn lemma_key_template_bounds(s: Seq<u8>, i: int)
    ensures
        key_template_from(s, i) matches Some(j) ==> i <= j && j + 6 <= s.len(),
    decreases s.len() - i,
{
    if i >= 0 && i + 6 <= s.len() && !(s[i] == 0xC0 && s[i + 1] == 0x04) {
        lemma_key_template_bounds(s, i + 1);
    }
}

fn find_key_template(s: &[u8]) -> (r: Option<usize>)
    ensures
        match key_template_from(s@, 0) {
            Some(i) => r matches Some(j) && j as int == i,
            None => r is None,
        },
        r matches Some(i) ==> i + 6 <= s@.len(),
{
    proof {
        lemma_key_template_bounds(s@, 0);
    }
    let mut i: usize = 0;
    while i <= s.len() && s.len() - i >= 6
        invariant
            i <= s@.len(),
            key_template_from(s@, 0) == key_template_from(s@, i as int),
            key_template_from(s@, 0) matches Some(j) ==> j + 6 <= s@.len(),
        decreases s@.len() - i,
    {
        if s[i] == 0xC0 && s[i + 1] == 0x04 {
            return Some(i);
        }
        i += 1;
    }
    None
}

/// Static key `index` (0: ENC, 1: MAC, 2: DEK) of the card with the given
/// diversification data.
pub open spec fn static_key(index: int, diversification: Seq<u8>) -> Seq<u8> {
    aes_cmac_tag(GPPKI_V1_ROOT_KEY@, gppki_key_context(index, diversification))
}

/// Static keys: SELECT the card manager, GET DATA `E0` (the first `C0 04`
/// template gives the key version and must announce a 16-byte AES key,
/// `88 10`), SELECT the ISD, GET DATA `45` (exactly `45 0A` and 10 bytes of
/// diversification data). The key version and the diversification data.
pub open spec fn spec_gppki_static_keys(log: Seq<Option<Response>>, at: int) -> SFlow<Result<(u8, Seq<u8>), ()>> {
    then(
        spec_select_aid(GP_MANAGEMENT_AID@, 0x00, false, log, at),
        |r1: Result<(), ()>, n1: int| if r1 is Err { SFlow::Done(Err(()), n1) } else { then(
            crate::apdu::gen2::spec_get_data(0xE0, log, n1),
            |e0: Result<Seq<u8>, ()>, n2: int| match e0 {
                Err(_) => SFlow::Done(Err(()), n2),
                Ok(ki) => match key_template_from(ki, 0) {
                    None => SFlow::Done(Err(()), n2),
                    Some(w) => if ki[w + 4] != 0x88 || ki[w + 5] != 0x10 { SFlow::Done(Err(()), n2) } else { then(
                        spec_select_aid(GP_ISD_AID@, 0x00, false, log, n2),
                        |r3: Result<(), ()>, n3: int| if r3 is Err { SFlow::Done(Err(()), n3) } else { then(
                            crate::apdu::gen2::spec_get_data(0x45, log, n3),
                            |cd: Result<Seq<u8>, ()>, n4: int| match cd {
                                Ok(c) => if c.len() != 12 || c[0] != 0x45 || c[1] != 0x0A {
                                    SFlow::Done(Err(()), n4)
                                } else {
                                    SFlow::Done(Ok((ki[w + 3], c.subrange(2, 12))), n4)
                                },
                                Err(_) => SFlow::Done(Err(()), n4),
                            },
                        ) },
                    ) },
                },
            },
        ) },
    )
}

/// The key version and the three diversified keys, and what they describe.
pub open spec fn same_static_keys(a: Result<(u8, Vec<Vec<u8>>), ()>, b: Result<(u8, Seq<u8>), ()>) -> bool {
    match (a, b) {
        (Ok((v, keys)), Ok((w, div))) => v == w && keys@.len() == 3 && forall|k: int| 0 <= k < 3 ==>
            #[trigger] keys@[k]@ == static_key(k, div) && keys@[k]@.len() == 16,
        (Err(_), Err(_)) => true,
        _ => false,
    }
}

fn gppki_static_keys(log: &[Option<Response>], at: usize) -> (r: Flow<Result<(u8, Vec<Vec<u8>>), ()>>)
    requires
        at <= log@.len(),
    ensures
        flow_matches(r, spec_gppki_static_keys(log@, at as int), |a, b| same_static_keys(a, b)),
        flow_within(r, at as int, log@.len() as int),
{
    let mgmt = GP_MANAGEMENT_AID;
    let n1 = match select_aid(&mgmt, 0x00, false, log, at) {
        Flow::Transmit(c) => return Flow::Transmit(c),
        Flow::Done(Err(()), n) => return Flow::Done(Err(()), n),
        Flow::Done(Ok(()), n) => n,
    };
    let (ki, n2) = match crate::apdu::gen2::get_data(0xE0, log, n1) {
        Flow::Transmit(c) => return Flow::Transmit(c),
        Flow::Done(Err(_), n) => return Flow::Done(Err(()), n),
        Flow::Done(Ok(v), n) => (v, n),
    };
    let found = find_key_template(ki.as_slice());
    let w = match found {
        None => return Flow::Done(Err(()), n2),
        Some(w) => w,
    };
    assert(key_template_from(ki@, 0) == Some(w as int));
    assert(w + 6 <= ki@.len());
    if ki[w + 4] != 0x88 || ki[w + 5] != 0x10 {
        return Flow::Done(Err(()), n2);
    }
    let key_version = ki[w + 3];
    let isd = GP_ISD_AID;
    let n3 = match select_aid(&isd, 0x00, false, log, n2) {
        Flow::Transmit(c) => return Flow::Transmit(c),
        Flow::Done(Err(()), n) => return Flow::Done(Err(()), n),
        Flow::Done(Ok(()), n) => n,
    };
    let (cd, n4) = match crate::apdu::gen2::get_data(0x45, log, n3) {
        Flow::Transmit(c) => return Flow::Transmit(c),
        Flow::Done(Err(_), n) => return Flow::Done(Err(()), n),
        Flow::Done(Ok(v), n) => (v, n),
    };
    if cd.len() != 12 || cd[0] != 0x45 || cd[1] != 0x0A {
        return Flow::Done(Err(()), n4);
    }
    let div = vstd::slice::slice_subrange(cd.as_slice(), 2, 12);
    match diversify_gppki_keys(div) {
        Ok(keys) => Flow::Done(Ok((key_version, keys)), n4),
        Err(_) => Flow::Done(Err(()), n4),
    }
}

/// An all-zero block with a final `01`: the initial encryption counter.
pub open spec fn counter_one() -> Seq<u8> {
    Seq::new(15, |i: int| 0u8).push(1u8)
}

/// The SCP03 handshake once INITIALIZE UPDATE was answered with `resp`
/// (exactly 29 bytes, the key version echoed, SCP03): session keys from the
/// challenges, the card cryptogram checked, and the EXTERNAL AUTHENTICATE
/// command with the host cryptogram and the session it opens.
pub open spec fn gppki_handshake(k_enc: Seq<u8>, k_mac: Seq<u8>, version: u8, host: Seq<u8>, resp: Seq<u8>)
    -> Option<(Seq<u8>, GpSessionModel)> {
    if resp.len() != 29 || resp[10] != version || resp[11] != 0x03 {
        None
    } else {
        let card = resp.subrange(13, 21);
        let s_enc = aes_cmac_tag(k_enc, scp03_context(0x04, 0x80, host, card));
        let s_mac = aes_cmac_tag(k_mac, scp03_context(0x06, 0x80, host, card));
        let card_crypto = aes_cmac_tag(s_mac, scp03_context(0x00, 0x40, host, card));
        if card_crypto.take(8) != resp.subrange(21, 29) {
            None
        } else {
            let host_crypto = aes_cmac_tag(s_mac, scp03_context(0x01, 0x40, host, card));
            let head = seq![0x84u8, 0x82u8, 0x03u8, 0x00u8, 0x10u8] + host_crypto.take(8);
            let mcv = aes_cmac_tag(s_mac, zero_block() + head);
            Some((head + mcv.take(8), GpSessionModel {
                encryption_key: s_enc,
                mac_key: s_mac,
                mac_chaining_value: mcv,
                encryption_counter: counter_one(),
            }))
        }
    }
}

/// Open the GPPKI secure channel: static keys, SELECT the applet,
/// INITIALIZE UPDATE with the key version and the host challenge (`None`
/// where no random bytes could be had), the handshake, EXTERNAL
/// AUTHENTICATE; the session on `90 00`.
pub open spec fn spec_open_gppki_secure_channel(host: Option<Seq<u8>>, log: Seq<Option<Response>>, at: int)
    -> SFlow<Result<GpSessionModel, ()>> {
    then(
        spec_gppki_static_keys(log, at),
        |k: Result<(u8, Seq<u8>), ()>, n1: int| match k {
            Err(_) => SFlow::Done(Err(()), n1),
            Ok((version, div)) => then(
                spec_select_aid(GPPKI_ID_V1_AID@, 0x0C, true, log, n1),
                |r: Result<(), ()>, n: int| if r is Err {
                    SFlow::Done(Err(()), n)
                } else {
                    match host {
                        None => SFlow::Done(Err(()), n),
                        Some(h) => if n >= log.len() {
                            SFlow::Transmit(seq![0x80u8, 0x50u8, version, 0x00u8, 0x08u8] + h + seq![0x00u8])
                        } else {
                            match log[n] {
                                Some(x) => if x.sw != 0x9000 {
                                    SFlow::Done(Err(()), n + 1)
                                } else {
                                    match gppki_handshake(static_key(0, div), static_key(1, div), version, h, x.data@) {
                                        None => SFlow::Done(Err(()), n + 1),
                                        Some((ea, sess)) => if n + 1 >= log.len() {
                                            SFlow::Transmit(ea)
                                        } else if answered(log[n + 1], 0x9000) {
                                            SFlow::Done(Ok(sess), n + 2)
                                        } else {
                                            SFlow::Done(Err(()), n + 2)
                                        },
                                    }
                                },
                                None => SFlow::Done(Err(()), n + 1),
                            }
                        },
                    }
                },
            ),
        },
    )
}

/// A session and the session it describes.
pub open spec fn same_gp_session(a: Result<Scp03Session, ()>, b: Result<GpSessionModel, ()>) -> bool {
    match (a, b) {
        (Ok(x), Ok(y)) => x@ == y && x.wf(),
        (Err(_), Err(_)) => true,
        _ => false,
    }
}

fn open_gppki_secure_channel(host: &Option<Vec<u8>>, log: &[Option<Response>], at: usize) -> (r: Flow<Result<Scp03Session, ()>>)
    requires
        host matches Some(h) ==> h@.len() == 8,
        at <= log@.len(),
    ensures
        flow_matches(
            r,
            spec_open_gppki_secure_channel(match host { Some(h) => Some(h@), None => None }, log@, at as int),
            |a, b| same_gp_session(a, b),
        ),
        flow_within(r, at as int, log@.len() as int),
{
    let (version, keys, n1) = match gppki_static_keys(log, at) {
        Flow::Transmit(c) => return Flow::Transmit(c),
        Flow::Done(Err(_), n) => return Flow::Done(Err(()), n),
        Flow::Done(Ok((v, k)), n) => (v, k, n),
    };
    let aid = GPPKI_ID_V1_AID;
    let n = match select_aid(&aid, 0x0C, true, log, n1) {
        Flow::Transmit(c) => return Flow::Transmit(c),
        Flow::Done(Err(()), n) => return Flow::Done(Err(()), n),
        Flow::Done(Ok(()), n) => n,
    };
    let h = match host {
        None => return Flow::Done(Err(()), n),
        Some(h) => h,
    };
    if n >= log.len() {
        let mut cmd: Vec<u8> = vec![0x80, 0x50, version, 0x00, 0x08];
        cmd.extend_from_slice(h);
        cmd.push(0x00);
        assert(cmd@ =~= seq![0x80u8, 0x50u8, version, 0x00u8, 0x08u8] + h@ + seq![0x00u8]);
        return Flow::Transmit(cmd);
    }
    let resp = match &log[n] {
        None => return Flow::Done(Err(()), n + 1),
        Some(x) => if x.sw != 0x9000 {
            return Flow::Done(Err(()), n + 1);
        } else {
            &x.data
        },
    };
    if resp.len() != 29 || resp[10] != version || resp[11] != 0x03 {
        return Flow::Done(Err(()), n + 1);
    }
    let card = vstd::slice::slice_subrange(resp.as_slice(), 13, 21);
    let k_enc = &keys[0];
    let k_mac = &keys[1];
    let s_enc = match scp03_derive(0x04, 0x80, k_enc, h, card) {
        Ok(k) => k,
        Err(_) => return Flow::Done(Err(()), n + 1),
    };
    let s_mac = match scp03_derive(0x06, 0x80, k_mac, h, card) {
        Ok(k) => k,
        Err(_) => return Flow::Done(Err(()), n + 1),
    };
    let card_crypto = match scp03_derive(0x00, 0x40, &s_mac, h, card) {
        Ok(k) => k,
        Err(_) => return Flow::Done(Err(()), n + 1),
    };
    let expected = vstd::slice::slice_subrange(resp.as_slice(), 21, 29);
    if !bytes_eq(vstd::slice::slice_subrange(card_crypto.as_slice(), 0, 8), expected) {
        return Flow::Done(Err(()), n + 1);
    }
    let host_crypto = match scp03_derive(0x01, 0x40, &s_mac, h, card) {
        Ok(k) => k,
        Err(_) => return Flow::Done(Err(()), n + 1),
    };
    let mut ea: Vec<u8> = vec![0x84, 0x82, 0x03, 0x00, 0x10];
    ea.extend_from_slice(vstd::slice::slice_subrange(host_crypto.as_slice(), 0, 8));
    let ghost head = ea@;
    let mut mac_input: Vec<u8> = vec![0u8; 16];
    mac_input.extend_from_slice(&ea);
    assert(mac_input@ =~= zero_block() + head);
    let mcv = match aes_cmac(&s_mac, &mac_input) {
        Ok(m) => m,
        Err(_) => return Flow::Done(Err(()), n + 1),
    };
    ea.extend_from_slice(vstd::slice::slice_subrange(mcv.as_slice(), 0, 8));
    let mut counter: Vec<u8> = vec![0u8; 15];
    counter.push(1);
    let ghost model = GpSessionModel { encryption_key: s_enc@, mac_key: s_mac@, mac_chaining_value: mcv@, encryption_counter: counter@ };
    proof {
        assert(counter@ =~= counter_one());
        assert(head =~= seq![0x84u8, 0x82u8, 0x03u8, 0x00u8, 0x10u8] + host_crypto@.take(8));
        assert(ea@ =~= head + mcv@.take(8));
        assert(card_crypto@.take(8) =~= card_crypto@.subrange(0, 8));
    }
    if n + 1 >= log.len() {
        return Flow::Transmit(ea);
    }
    if !reply_is(log, n + 1, 0x9000) {
        return Flow::Done(Err(()), n + 2);
    }
    let sess = Scp03Session { encryption_key: s_enc, mac_key: s_mac, mac_chaining_value: mcv, encryption_counter: counter };
    assert(sess@ =~= model);
    Flow::Done(Ok(sess), n + 2)
}

/// GPPKI VERIFY of the user PIN (6 to 8 bytes) through a freshly opened
/// secure channel.
pub open spec fn spec_verify_gppki_pin(pin: Seq<u8>, host: Option<Seq<u8>>, log: Seq<Option<Response>>, at: int) -> SFlow<PinResult> {
    if pin.len() < 6 || pin.len() > 8 {
        SFlow::Done(PinResult::Error, at)
    } else {
        then(
            spec_open_gppki_secure_channel(host, log, at),
            |s: Result<GpSessionModel, ()>, n: int| match s {
                Err(_) => SFlow::Done(PinResult::Error, n),
                Ok(sess) => match gppki_verify_cmd(sess, GPPKI_USER_PIN_REF, pin) {
                    None => SFlow::Done(PinResult::Error, n),
                    Some(cmd) => if n >= log.len() {
                        SFlow::Transmit(cmd)
                    } else {
                        SFlow::Done(pin_status(log[n]), n + 1)
                    },
                },
            },
        )
    }
}

fn verify_gppki_pin(pin: &[u8], host: &Option<Vec<u8>>, log: &[Option<Response>], at: usize) -> (r: Flow<PinResult>)
    requires
        host matches Some(h) ==> h@.len() == 8,
        at <= log@.len(),
    ensures
        same_flow(r, spec_verify_gppki_pin(pin@, match host { Some(h) => Some(h@), None => None }, log@, at as int)),
        flow_within(r, at as int, log@.len() as int),
{
    if pin.len() < 6 || pin.len() > 8 {
        return Flow::Done(PinResult::Error, at);
    }
    let (mut session, n) = match open_gppki_secure_channel(host, log, at) {
        Flow::Transmit(c) => return Flow::Transmit(c),
        Flow::Done(Err(_), n) => return Flow::Done(PinResult::Error, n),
        Flow::Done(Ok(s), n) => (s, n),
    };
    let command = match wrap_gppki_verify(&mut session, GPPKI_USER_PIN_REF, pin) {
        Ok(c) => c,
        Err(_) => return Flow::Done(PinResult::Error, n),
    };
    if n >= log.len() {
        return Flow::Transmit(command);
    }
    Flow::Done(crate::apdu::pin_result(log, n), n + 1)
}

/// VERIFY by profile: on a GPPKI card through the secure channel; otherwise
/// the 3DES-protected VERIFY (PIN of 1 to 10 bytes) after selecting the key
/// EF, under the random IV. `random` is the host challenge or the IV
/// (`None` where no random bytes could be had).
pub open spec fn spec_verify_pin(st: HicosState, pin: Seq<u8>, random: Option<Seq<u8>>, log: Seq<Option<Response>>, at: int)
    -> SFlow<(PinResult, HicosState)> {
    if st.profile == CardProfile::GpPkiIdV1 {
        then(spec_verify_gppki_pin(pin, random, log, at), |p: PinResult, n: int| SFlow::Done((p, st), n))
    } else if pin.len() == 0 || pin.len() > PIN_MAX {
        SFlow::Done((PinResult::Error, st), at)
    } else {
        then(
            spec_select_hicos_key_ef(st, log, at),
            |v: (Result<(), ()>, HicosState), n: int| if v.0 is Err {
                SFlow::Done((PinResult::Error, v.1), n)
            } else {
                match random {
                    None => SFlow::Done((PinResult::Error, v.1), n),
                    Some(iv) => if n >= log.len() {
                        SFlow::Transmit(crate::apdu::gen1::verify_cmd(iv, pin))
                    } else {
                        SFlow::Done((pin_status(log[n]), v.1), n + 1)
                    },
                }
            },
        )
    }
}

/// Relation of a PIN outcome and state to what they describe.
pub open spec fn same_pin_state(a: (PinResult, HicosState), b: (PinResult, HicosState)) -> bool {
    a == b
}

/// HiCOS V3 protects VERIFY with 2-key 3DES CBC encryption and a CBC MAC; a
/// clear-text VERIFY is rejected and can consume a retry, so there is no
/// plain fallback. GPPKI cards go through SCP03.
pub fn verify_pin(st: &HicosState, _pin_ref: u8, pin: &[u8], random: &Option<Vec<u8>>, log: &[Option<Response>], at: usize)
    -> (r: Flow<(PinResult, HicosState)>)
    requires
        random matches Some(v) ==> v@.len() == 8,
        at <= log@.len(),
    ensures
        flow_matches(
            r,
            spec_verify_pin(*st, pin@, match random { Some(v) => Some(v@), None => None }, log@, at as int),
            |a, b| same_pin_state(a, b),
        ),
        flow_within(r, at as int, log@.len() as int),
{
    if st.profile == CardProfile::GpPkiIdV1 {
        return match verify_gppki_pin(pin, random, log, at) {
            Flow::Transmit(c) => Flow::Transmit(c),
            Flow::Done(p, n) => Flow::Done((p, *st), n),
        };
    }
    if pin.len() == 0 || pin.len() > PIN_MAX {
        return Flow::Done((PinResult::Error, *st), at);
    }
    let (s, n) = match select_hicos_key_ef(st, log, at) {
        Flow::Transmit(c) => return Flow::Transmit(c),
        Flow::Done((Err(()), s), n) => return Flow::Done((PinResult::Error, s), n),
        Flow::Done((Ok(()), s), n) => (s, n),
    };
    let iv = match random {
        None => return Flow::Done((PinResult::Error, s), n),
        Some(v) => v,
    };
    if n >= log.len() {
        return Flow::Transmit(crate::apdu::gen1::protected_verify(iv, pin));
    }
    Flow::Done((crate::apdu::pin_result(log, n), s), n + 1)
}

/// HiCOS V3 RSA signature into a buffer of `out_cap` bytes: the PKCS#1 v1.5
/// block of `data`, the key EF selected, two `EA` transfers and `C1` reads.
pub open spec fn spec_hicos_v3_sign(st: HicosState, key_ref: u8, data: Seq<u8>, out_cap: int, log: Seq<Option<Response>>, at: int)
    -> SFlow<(Result<Seq<u8>, ()>, HicosState)> {
    if out_cap < RSA_BLOCK_LEN || data.len() > RSA_BLOCK_LEN - 11 {
        SFlow::Done((Err(()), st), at)
    } else {
        then(
            spec_select_hicos_key_ef(st, log, at),
            |v: (Result<(), ()>, HicosState), n: int| if v.0 is Err {
                SFlow::Done((Err(()), v.1), n)
            } else {
                then(
                    crate::apdu::gen1::spec_ea_from(key_ref, crate::apdu::type1_block(data, RSA_BLOCK_LEN as nat), 0, Seq::empty(), log, n),
                    |r: Result<Seq<u8>, ()>, m: int| SFlow::Done((r, v.1), m),
                )
            },
        )
    }
}

/// Relation of a byte outcome and state to what they describe.
pub open spec fn same_bytes_state(a: (Result<Vec<u8>, ()>, HicosState), b: (Result<Seq<u8>, ()>, HicosState)) -> bool {
    &&& match (a.0, b.0) {
        (Ok(x), Ok(y)) => x@ == y,
        (Err(_), Err(_)) => true,
        _ => false,
    }
    &&& a.1 == b.1
}

/// The proprietary HiCOS V3 RSA private operation of the official module:
/// two 128-byte `EA` transfers followed by `C1` continuation reads.
pub fn hicos_v3_sign(st: &HicosState, key_ref: u8, data: &[u8], out_cap: usize, log: &[Option<Response>], at: usize)
    -> (r: Flow<(Result<Vec<u8>, ()>, HicosState)>)
    requires
        at <= log@.len(),
    ensures
        flow_matches(r, spec_hicos_v3_sign(*st, key_ref, data@, out_cap as int, log@, at as int), |a, b| same_bytes_state(a, b)),
        flow_within(r, at as int, log@.len() as int),
{
    if out_cap < RSA_BLOCK_LEN {
        return Flow::Done((Err(()), *st), at);
    }
    let block = match crate::apdu::pkcs1_v15_signature_block(data) {
        Ok(b) => b,
        Err(()) => return Flow::Done((Err(()), *st), at),
    };
    let (s, n) = match select_hicos_key_ef(st, log, at) {
        Flow::Transmit(c) => return Flow::Transmit(c),
        Flow::Done((Err(()), s), n) => return Flow::Done((Err(()), s), n),
        Flow::Done((Ok(()), s), n) => (s, n),
    };
    match crate::apdu::gen1::ea_exchange(key_ref, &block, log, n) {
        Flow::Transmit(c) => Flow::Transmit(c),
        Flow::Done(v, m) => Flow::Done((v, s), m),
    }
}

/// The class byte of `st` as the shared commands use it.
pub open spec fn as_card(st: HicosState) -> crate::apdu::CardState {
    crate::apdu::CardState { cla: st.cla, cla_locked: st.cla_locked, profile: crate::apdu::CardProfile::Gen1 }
}

fn card_of(st: &HicosState) -> (c: crate::apdu::CardState)
    ensures
        c == as_card(*st),
{
    crate::apdu::CardState { cla: st.cla, cla_locked: st.cla_locked, profile: crate::apdu::CardProfile::Gen1 }
}

/// READ BINARY of up to `want` bytes at `offset` (see [`crate::apdu::read_binary`]).
pub fn read_binary(st: &HicosState, offset: u32, want: usize, log: &[Option<Response>], at: usize) -> (r: Flow<Result<Vec<u8>, ()>>)
    requires
        at <= log@.len(),
    ensures
        same_bytes_flow(r, crate::apdu::spec_read_binary(as_card(*st), offset as int, want as int, log@, at as int)),
{
    crate::apdu::read_binary(&card_of(st), offset, want, log, at)
}

/// READ RECORD `record` (see [`crate::apdu::read_record`]).
pub fn read_record(st: &HicosState, record: u8, want: usize, log: &[Option<Response>], at: usize) -> (r: Flow<Result<Vec<u8>, ()>>)
    requires
        at <= log@.len(),
    ensures
        same_bytes_flow(r, crate::apdu::spec_read_record(as_card(*st), record, want as int, log@, at as int)),
{
    crate::apdu::read_record(&card_of(st), record, want, log, at)
}

/// `len` bytes from `offset` of the selected EF (see [`crate::apdu::read_binary_range`]).
pub fn read_binary_range(st: &HicosState, offset: u32, len: usize, log: &[Option<Response>], at: usize) -> (r: Flow<Result<Vec<u8>, ()>>)
    requires
        at <= log@.len(),
    ensures
        same_bytes_flow(r, crate::apdu::spec_read_range_from(as_card(*st), offset as int, len as int, Seq::empty(), log@, at as int)),
{
    crate::apdu::read_binary_range(&card_of(st), offset, len, log, at)
}

/// The whole selected EF (see [`crate::apdu::read_ef`]).
pub fn read_ef(st: &HicosState, log: &[Option<Response>], at: usize) -> (r: Flow<Result<Vec<u8>, ()>>)
    requires
        at <= log@.len(),
    ensures
        same_bytes_flow(r, crate::apdu::spec_read_ef_from(as_card(*st), 0, Seq::empty(), log@, at as int)),
{
    crate::apdu::read_ef(&card_of(st), log, at)
}

/// MSE SET for signing with `key_ref` (see [`crate::apdu::mse_set_dst`]).
pub fn mse_set_dst(st: &HicosState, key_ref: u8, log: &[Option<Response>], at: usize) -> (r: Flow<Result<(), ()>>)
    requires
        at <= log@.len(),
    ensures
        same_flow(r, crate::apdu::spec_mse_set_dst(as_card(*st), key_ref, log@, at as int)),
{
    crate::apdu::mse_set_dst(&card_of(st), key_ref, log, at)
}

/// MSE SET for deciphering with `key_ref` (see [`crate::apdu::mse_set_decipher`]).
pub fn mse_set_decipher(st: &HicosState, key_ref: u8, log: &[Option<Response>], at: usize) -> (r: Flow<Result<(), ()>>)
    requires
        at <= log@.len(),
    ensures
        same_flow(r, crate::apdu::spec_mse_set_decipher(as_card(*st), key_ref, log@, at as int)),
{
    crate::apdu::mse_set_decipher(&card_of(st), key_ref, log, at)
}

/// PSO COMPUTE DIGITAL SIGNATURE (see [`crate::apdu::pso_cds`]).
pub fn pso_cds(st: &HicosState, data: &[u8], out_cap: usize, log: &[Option<Response>], at: usize) -> (r: Flow<Result<Vec<u8>, ()>>)
    requires
        at <= log@.len(),
    ensures
        same_bytes_flow(r, crate::apdu::spec_pso_cds(as_card(*st), data@, out_cap as int, log@, at as int)),
{
    crate::apdu::pso_cds(&card_of(st), data, out_cap, log, at)
}

/// PSO DECIPHER (see [`crate::apdu::pso_decipher`]).
pub fn pso_decipher(st: &HicosState, cipher: &[u8], out_cap: usize, log: &[Option<Response>], at: usize) -> (r: Flow<Result<Vec<u8>, ()>>)
    requires
        at <= log@.len(),
    ensures
        same_bytes_flow(r, crate::apdu::spec_pso_decipher(as_card(*st), cipher@, out_cap as int, log@, at as int)),
{
    crate::apdu::pso_decipher(&card_of(st), cipher, out_cap, log, at)
}

} // verus!
