//! APDU layer for HiCOS smart cards.
//!
//! Card-specific commands live in submodules by card generation:
//! [`gen1`] (CLA `0x80`, 3DES-protected VERIFY, proprietary `EA`/`C1` RSA)
//! and [`gen2`] (GPPKI applet behind GlobalPlatform SCP03).

pub mod gen1;
pub mod gen2;

use vstd::prelude::*;

verus! {

/// RSA block length (2048-bit keys).
pub const RSA_BLOCK_LEN: usize = 256;

/// Longest PIN the cards accept.
pub const PIN_MAX: usize = 10;

/// Largest READ BINARY chunk.
pub const CHUNK: usize = 0xC8;

/// The PIN field of VERIFY: the PIN padded with `FF` to ten bytes.
pub open spec fn pin_field(pin: Seq<u8>) -> Seq<u8> {
    pin + Seq::new((PIN_MAX - pin.len()) as nat, |i: int| 0xFFu8)
}

/// The VERIFY PIN field for `pin` (at most ten bytes).
pub fn pin_block(pin: &[u8]) -> (out: Vec<u8>)
    requires
        pin@.len() <= PIN_MAX,
    ensures
        out@ == pin_field(pin@),
{
    let mut out = crate::bytes::bytes_to_vec(pin);
    while out.len() < PIN_MAX
        invariant
            pin@.len() <= out@.len() <= PIN_MAX,
            out@ == pin@ + Seq::new((out@.len() - pin@.len()) as nat, |i: int| 0xFFu8),
        decreases PIN_MAX - out@.len(),
    {
        out.push(0xFF);
        assert(out@ =~= pin@ + Seq::new((out@.len() - pin@.len()) as nat, |i: int| 0xFFu8));
    }
    out
}

/// Index of the first zero byte of `s` at or after `i`, if any.
pub open spec fn first_zero_from(s: Seq<u8>, i: int) -> Option<int>
    decreases s.len() - i,
{
    if i < 0 || i >= s.len() {
        None
    } else if s[i] == 0 {
        Some(i)
    } else {
        first_zero_from(s, i + 1)
    }
}

/// EMSA-PKCS1-v1_5 block of `k` bytes around `data`: `00 01 FF..FF 00 data`.
pub open spec fn type1_block(data: Seq<u8>, k: nat) -> Seq<u8> {
    seq![0u8, 1u8] + Seq::new((k - data.len() - 3) as nat, |i: int| 0xFFu8) + seq![0u8] + data
}

/// PKCS#1 v1.5 encryption block of `k` bytes: `00 02 PS 00 msg`.
pub open spec fn type2_block(msg: Seq<u8>, ps: Seq<u8>) -> Seq<u8> {
    seq![0u8, 2u8] + ps + seq![0u8] + msg
}

/// Message inside a 256-byte PKCS#1 v1.5 encryption block, if the block is
/// well formed (at least 8 padding bytes before the separator).
pub open spec fn type2_message(block: Seq<u8>) -> Option<Seq<u8>> {
    if block.len() != RSA_BLOCK_LEN || block[0] != 0 || block[1] != 2 {
        None
    } else {
        match first_zero_from(block, 2) {
            Some(i) if i >= 10 => Some(block.subrange(i + 1, block.len() as int)),
            _ => None,
        }
    }
}

/// The 256-byte signature input `00 01 FF..FF 00 data`; refused when `data`
/// leaves fewer than 8 padding bytes.
pub fn pkcs1_v15_signature_block(data: &[u8]) -> (r: Result<Vec<u8>, ()>)
    ensures
        data@.len() > RSA_BLOCK_LEN - 11 ==> r is Err,
        data@.len() <= RSA_BLOCK_LEN - 11 ==> (r matches Ok(b) && b@ == type1_block(data@, RSA_BLOCK_LEN as nat)),
{
    if data.len() > RSA_BLOCK_LEN - 11 {
        return Err(());
    }
    let mut block: Vec<u8> = Vec::new();
    block.push(0x00);
    block.push(0x01);
    let separator = RSA_BLOCK_LEN - data.len() - 1;
    while block.len() < separator
        invariant
            2 <= block@.len() <= separator,
            separator == RSA_BLOCK_LEN - data@.len() - 1,
            block@ == seq![0u8, 1u8] + Seq::new((block@.len() - 2) as nat, |i: int| 0xFFu8),
        decreases separator - block@.len(),
    {
        block.push(0xFF);
        assert(block@ =~= seq![0u8, 1u8] + Seq::new((block@.len() - 2) as nat, |i: int| 0xFFu8));
    }
    block.push(0x00);
    block.extend_from_slice(data);
    assert(block@ =~= type1_block(data@, RSA_BLOCK_LEN as nat));
    Ok(block)
}

proof fn lemma_first_zero_skip(s: Seq<u8>, a: int, b: int)
    requires
        0 <= a <= b <= s.len(),
        forall|j: int| a <= j < b ==> s[j] != 0,
    ensures
        first_zero_from(s, a) == first_zero_from(s, b),
    decreases b - a,
{
    if a < b {
        lemma_first_zero_skip(s, a + 1, b);
    }
}

/// Strip PKCS#1 v1.5 encryption padding (`00 02 | PS | 00 | M`) from a
/// 256-byte block.
pub fn pkcs1_v15_unpad_type2(block: &[u8]) -> (r: Result<Vec<u8>, ()>)
    ensures
        match type2_message(block@) {
            Some(m) => r matches Ok(v) && v@ == m,
            None => r is Err,
        },
{
    if block.len() != RSA_BLOCK_LEN || block[0] != 0x00 || block[1] != 0x02 {
        return Err(());
    }
    let mut i: usize = 2;
    while i < block.len() && block[i] != 0x00
        invariant
            2 <= i <= block@.len(),
            forall|j: int| 2 <= j < i ==> block@[j] != 0,
        decreases block@.len() - i,
    {
        i += 1;
    }
    proof {
        lemma_first_zero_skip(block@, 2, i as int);
    }
    if i < 10 || i >= block.len() {
        return Err(());
    }
    let mut out: Vec<u8> = Vec::new();
    let mut k = i + 1;
    while k < block.len()
        invariant
            i + 1 <= k <= block@.len(),
            out@ == block@.subrange(i + 1, k as int),
        decreases block@.len() - k,
    {
        out.push(block[k]);
        k += 1;
        assert(out@ =~= block@.subrange(i + 1, k as int));
    }
    Ok(out)
}

/// Unpadding a type-2 block gives back the message it was built around,
/// whenever the padding string has no zero byte, is at least 8 bytes long and
/// the block is 256 bytes.
pub proof fn lemma_type2_roundtrip(msg: Seq<u8>, ps: Seq<u8>)
    requires
        ps.len() >= 8,
        ps.len() + msg.len() + 3 == RSA_BLOCK_LEN,
        forall|j: int| 0 <= j < ps.len() ==> ps[j] != 0,
    ensures
        type2_message(type2_block(msg, ps)) == Some(msg),
{
    let b = type2_block(msg, ps);
    let z: int = 2 + ps.len() as int;
    assert forall|j: int| 2 <= j < z implies b[j] != 0 by {
        assert(b[j] == ps[j - 2]);
    }
    lemma_first_zero_skip(b, 2, z);
    assert(b[z] == 0);
    assert(b.subrange(z + 1, b.len() as int) =~= msg);
}


/// A response APDU: status word and response data.
pub struct Response {
    pub sw: u16,
    pub data: Vec<u8>,
}

/// Next step of a card dialogue. Dialogues are functions of the replies
/// received so far (`None` where the transport failed): either the next
/// command to transmit, or the outcome together with the index just past the
/// last reply they consumed.
pub enum Flow<T> {
    Transmit(Vec<u8>),
    Done(T, usize),
}

/// Specification-side counterpart of [`Flow`].
pub enum SFlow<T> {
    Transmit(Seq<u8>),
    Done(T, int),
}

/// `r` is the step that `s` describes.
pub open spec fn same_flow<T>(r: Flow<T>, s: SFlow<T>) -> bool {
    match s {
        SFlow::Transmit(c) => r matches Flow::Transmit(x) && x@ == c,
        SFlow::Done(v, n) => r matches Flow::Done(w, m) && w == v && m == n,
    }
}

/// `r` is the step that `s` describes, comparing byte results by their view.
pub open spec fn same_bytes_flow(r: Flow<Result<Vec<u8>, ()>>, s: SFlow<Result<Seq<u8>, ()>>) -> bool {
    match s {
        SFlow::Transmit(c) => r matches Flow::Transmit(x) && x@ == c,
        SFlow::Done(v, n) => r matches Flow::Done(w, m) && m == n && match (w, v) {
            (Ok(a), Ok(b)) => a@ == b,
            (Err(_), Err(_)) => true,
            _ => false,
        },
    }
}

/// `r` is the step that `s` describes, for byte results paired with a card state.
pub open spec fn same_bytes_state_flow(
    r: Flow<(Result<Vec<u8>, ()>, CardState)>,
    s: SFlow<(Result<Seq<u8>, ()>, CardState)>,
) -> bool {
    match s {
        SFlow::Transmit(c) => r matches Flow::Transmit(x) && x@ == c,
        SFlow::Done((v, st), n) => r matches Flow::Done((w, st2), m) && m == n && st2 == st && match (w, v) {
            (Ok(a), Ok(b)) => a@ == b,
            (Err(_), Err(_)) => true,
            _ => false,
        },
    }
}

/// `r` is the step that `s` describes, the outcomes related by `rel`.
pub open spec fn flow_matches<T, U>(r: Flow<T>, s: SFlow<U>, rel: spec_fn(T, U) -> bool) -> bool {
    match s {
        SFlow::Transmit(c) => r matches Flow::Transmit(x) && x@ == c,
        SFlow::Done(v, n) => r matches Flow::Done(w, m) && m == n && rel(w, v),
    }
}

/// A finished step consumed replies `at..n` of a log of `len` replies.
pub open spec fn flow_within<T>(r: Flow<T>, at: int, len: int) -> bool {
    r matches Flow::Done(_, n) ==> at <= n <= len
}

/// Run `f`; once it is done, go on with `k` from the reply where it stopped.
pub open spec fn then<A, B>(f: SFlow<A>, k: spec_fn(A, int) -> SFlow<B>) -> SFlow<B> {
    match f {
        SFlow::Transmit(c) => SFlow::Transmit(c),
        SFlow::Done(a, n) => k(a, n),
    }
}

/// A byte outcome paired with a card state.
pub open spec fn bytes_with_state(f: SFlow<Result<Seq<u8>, ()>>, s: CardState) -> SFlow<(Result<Seq<u8>, ()>, CardState)> {
    match f {
        SFlow::Transmit(c) => SFlow::Transmit(c),
        SFlow::Done(r, m) => SFlow::Done((r, s), m),
    }
}

/// Outcome of VERIFY.
#[derive(Clone, Copy, PartialEq, Eq, Structural, Debug)]
pub enum PinResult {
    Verified,
    Locked,
    Incorrect,
    Error,
}

/// How a VERIFY reply is read: `90 00` accepted, `69 83` blocked, `63 Cx`
/// wrong PIN, anything else (or no answer) an error.
pub open spec fn pin_status(r: Option<Response>) -> PinResult {
    match r {
        None => PinResult::Error,
        Some(x) => if x.sw == 0x9000 {
            PinResult::Verified
        } else if x.sw == 0x6983 {
            PinResult::Locked
        } else if x.sw & 0xFFF0 == 0x63C0 {
            PinResult::Incorrect
        } else {
            PinResult::Error
        },
    }
}

/// Classify the VERIFY reply at `at`.
pub fn pin_result(log: &[Option<Response>], at: usize) -> (p: PinResult)
    requires
        at < log@.len(),
    ensures
        p == pin_status(log@[at as int]),
{
    match status(&log[at]) {
        None => PinResult::Error,
        Some(sw) => if sw == 0x9000 {
            PinResult::Verified
        } else if sw == 0x6983 {
            PinResult::Locked
        } else if (sw & 0xFFF0) == 0x63C0 {
            PinResult::Incorrect
        } else {
            PinResult::Error
        },
    }
}

/// How a VERIFY status word is read (see [`pin_status`]).
pub open spec fn pin_status_sw(sw: u16) -> PinResult {
    if sw == 0x9000 {
        PinResult::Verified
    } else if sw == 0x6983 {
        PinResult::Locked
    } else if sw & 0xFFF0 == 0x63C0 {
        PinResult::Incorrect
    } else {
        PinResult::Error
    }
}

/// Classify a VERIFY status word.
pub fn pin_result_sw(sw: u16) -> (p: PinResult)
    ensures
        p == pin_status_sw(sw),
{
    if sw == 0x9000 {
        PinResult::Verified
    } else if sw == 0x6983 {
        PinResult::Locked
    } else if (sw & 0xFFF0) == 0x63C0 {
        PinResult::Incorrect
    } else {
        PinResult::Error
    }
}

/// The card answered with status `sw`.
pub open spec fn answered(r: Option<Response>, sw: u16) -> bool {
    r matches Some(x) && x.sw == sw
}

/// The card answered with `90 00` or a `62 xx` warning.
pub open spec fn answered_ok_or_warning(r: Option<Response>) -> bool {
    r matches Some(x) && (x.sw == 0x9000 || x.sw & 0xFF00 == 0x6200)
}

/// Status word of a reply, if the card answered.
pub fn status(r: &Option<Response>) -> (sw: Option<u16>)
    ensures
        match *r {
            Some(x) => sw == Some(x.sw),
            None => sw is None,
        },
{
    match r {
        Some(x) => Some(x.sw),
        None => None,
    }
}

/// The reply at `at`: whether the card answered `90 00`.
pub fn reply_is(log: &[Option<Response>], at: usize, sw: u16) -> (b: bool)
    requires
        at < log@.len(),
    ensures
        b == answered(log@[at as int], sw),
{
    match status(&log[at]) {
        Some(x) => x == sw,
        None => false,
    }
}

/// Whether a status word is `90 00` or a `62 xx` warning.
pub fn ok_or_warning(sw: u16) -> (b: bool)
    ensures
        b == (sw == 0x9000 || sw & 0xFF00 == 0x6200),
{
    sw == 0x9000 || (sw & 0xFF00) == 0x6200
}

/// Card generation detected when the card is first selected.
#[derive(Clone, Copy, PartialEq, Eq, Structural, Debug)]
pub enum CardProfile {
    /// First-generation card: CLA `0x80`.
    Gen1,
    /// Second-generation card: GPPKI applet, CLA `0x00`, SCP03.
    Gen2,
}

/// Per-connection APDU state: class byte, whether it is settled, and the
/// detected profile.
#[derive(Clone, Copy, PartialEq, Eq, Structural, Debug)]
pub struct CardState {
    pub cla: u8,
    pub cla_locked: bool,
    pub profile: CardProfile,
}

/// The state of a connection nothing has been learned about yet.
pub open spec fn initial_state() -> CardState {
    CardState { cla: 0x80, cla_locked: false, profile: CardProfile::Gen1 }
}

/// The state after a card has been identified as `profile`.
pub open spec fn profile_state(profile: CardProfile) -> CardState {
    CardState { cla: if profile == CardProfile::Gen1 { 0x80 } else { 0x00 }, cla_locked: true, profile }
}

/// Forget the detected class byte and profile.
pub fn reset_cla(st: &mut CardState)
    ensures
        *final(st) == initial_state(),
{
    *st = CardState { cla: 0x80, cla_locked: false, profile: CardProfile::Gen1 };
}

/// Class byte in use.
pub fn cla(st: &CardState) -> (c: u8)
    ensures
        c == st.cla,
{
    st.cla
}

/// Detected card profile.
pub fn profile(st: &CardState) -> (p: CardProfile)
    ensures
        p == st.profile,
{
    st.profile
}

/// Record `profile` and settle the class byte it uses.
pub fn set_profile(st: &mut CardState, profile: CardProfile)
    ensures
        *final(st) == profile_state(profile),
{
    match profile {
        CardProfile::Gen1 => {
            *st = CardState { cla: 0x80, cla_locked: true, profile };
        },
        CardProfile::Gen2 => {
            *st = CardState { cla: 0x00, cla_locked: true, profile };
        },
    }
}

/// SELECT MF with class byte `cla`.
pub open spec fn select_mf_cmd(cla: u8) -> Seq<u8> {
    seq![cla, 0xA4u8, 0x00u8, 0x00u8, 0x02u8, 0x3Fu8, 0x00u8]
}

/// SELECT MF with a given class byte: succeeds on `90 00`.
pub open spec fn spec_select_mf_with_cla(try_cla: u8, log: Seq<Option<Response>>, at: int) -> SFlow<Result<(), ()>> {
    if at >= log.len() {
        SFlow::Transmit(select_mf_cmd(try_cla))
    } else {
        SFlow::Done(if answered(log[at], 0x9000) { Ok(()) } else { Err(()) }, at + 1)
    }
}

pub fn select_mf_with_cla(try_cla: u8, log: &[Option<Response>], at: usize) -> (r: Flow<Result<(), ()>>)
    requires
        at <= log@.len(),
    ensures
        same_flow(r, spec_select_mf_with_cla(try_cla, log@, at as int)),
        flow_within(r, at as int, log@.len() as int),
{
    if at >= log.len() {
        let cmd = vec![try_cla, 0xA4, 0x00, 0x00, 0x02, 0x3F, 0x00];
        assert(cmd@ =~= select_mf_cmd(try_cla));
        return Flow::Transmit(cmd);
    }
    Flow::Done(if reply_is(log, at, 0x9000) { Ok(()) } else { Err(()) }, at + 1)
}

/// Detect the card profile: the gen2 GPPKI applet first, then the MF with
/// class `80`, then with class `00`.
pub open spec fn spec_detect_and_select(st: CardState, log: Seq<Option<Response>>, at: int)
    -> SFlow<(Result<CardProfile, ()>, CardState)> {
    match gen2::spec_select_aid(log, at) {
        SFlow::Transmit(c) => SFlow::Transmit(c),
        SFlow::Done(Ok(()), n) => SFlow::Done((Ok(CardProfile::Gen2), profile_state(CardProfile::Gen2)), n),
        SFlow::Done(Err(()), n) => match spec_select_mf_with_cla(0x80, log, n) {
            SFlow::Transmit(c) => SFlow::Transmit(c),
            SFlow::Done(Ok(()), n2) => SFlow::Done((Ok(CardProfile::Gen1), profile_state(CardProfile::Gen1)), n2),
            SFlow::Done(Err(()), n2) => match spec_select_mf_with_cla(0x00, log, n2) {
                SFlow::Transmit(c) => SFlow::Transmit(c),
                SFlow::Done(Ok(()), n3) => SFlow::Done((Ok(CardProfile::Gen1), profile_state(CardProfile::Gen1)), n3),
                SFlow::Done(Err(()), n3) => SFlow::Done((Err(()), st), n3),
            },
        },
    }
}

/// Detect the card profile: try the gen2 GPPKI AID first, else the gen1 MF
/// with class-byte probing.
pub fn detect_and_select(st: &CardState, log: &[Option<Response>], at: usize)
    -> (r: Flow<(Result<CardProfile, ()>, CardState)>)
    requires
        at <= log@.len(),
    ensures
        same_flow(r, spec_detect_and_select(*st, log@, at as int)),
        flow_within(r, at as int, log@.len() as int),
{
    let n = match gen2::select_aid(log, at) {
        Flow::Transmit(c) => return Flow::Transmit(c),
        Flow::Done(Ok(()), n) => {
            let mut s = *st;
            set_profile(&mut s, CardProfile::Gen2);
            return Flow::Done((Ok(CardProfile::Gen2), s), n);
        },
        Flow::Done(Err(()), n) => n,
    };
    let n2 = match select_mf_with_cla(0x80, log, n) {
        Flow::Transmit(c) => return Flow::Transmit(c),
        Flow::Done(Ok(()), n2) => {
            let mut s = *st;
            s.cla = 0x80;
            s.cla_locked = true;
            set_profile(&mut s, CardProfile::Gen1);
            return Flow::Done((Ok(CardProfile::Gen1), s), n2);
        },
        Flow::Done(Err(()), n2) => n2,
    };
    match select_mf_with_cla(0x00, log, n2) {
        Flow::Transmit(c) => Flow::Transmit(c),
        Flow::Done(Ok(()), n3) => {
            let mut s = *st;
            s.cla = 0x00;
            s.cla_locked = true;
            set_profile(&mut s, CardProfile::Gen1);
            Flow::Done((Ok(CardProfile::Gen1), s), n3)
        },
        Flow::Done(Err(()), n3) => Flow::Done((Err(()), *st), n3),
    }
}

/// SELECT MF for the current profile, detecting it first when unknown.
pub open spec fn spec_select_mf(st: CardState, log: Seq<Option<Response>>, at: int) -> SFlow<(Result<(), ()>, CardState)> {
    if st.cla_locked {
        let inner = if st.profile == CardProfile::Gen2 {
            gen2::spec_select_aid(log, at)
        } else {
            spec_select_mf_with_cla(st.cla, log, at)
        };
        match inner {
            SFlow::Transmit(c) => SFlow::Transmit(c),
            SFlow::Done(r, n) => SFlow::Done((r, st), n),
        }
    } else {
        match spec_detect_and_select(st, log, at) {
            SFlow::Transmit(c) => SFlow::Transmit(c),
            SFlow::Done((Ok(_), s), n) => SFlow::Done((Ok(()), s), n),
            SFlow::Done((Err(_), s), n) => SFlow::Done((Err(()), s), n),
        }
    }
}

/// SELECT MF (or the gen2 applet); the first call detects the profile.
pub fn select_mf(st: &CardState, log: &[Option<Response>], at: usize) -> (r: Flow<(Result<(), ()>, CardState)>)
    requires
        at <= log@.len(),
    ensures
        same_flow(r, spec_select_mf(*st, log@, at as int)),
        flow_within(r, at as int, log@.len() as int),
{
    if st.cla_locked {
        let inner = match st.profile {
            CardProfile::Gen2 => gen2::select_aid(log, at),
            CardProfile::Gen1 => select_mf_with_cla(st.cla, log, at),
        };
        return match inner {
            Flow::Transmit(c) => Flow::Transmit(c),
            Flow::Done(r, n) => Flow::Done((r, *st), n),
        };
    }
    match detect_and_select(st, log, at) {
        Flow::Transmit(c) => Flow::Transmit(c),
        Flow::Done((Ok(_), s), n) => Flow::Done((Ok(()), s), n),
        Flow::Done((Err(_), s), n) => Flow::Done((Err(()), s), n),
    }
}

/// SELECT of file `fid` under the current profile.
pub open spec fn select_fid_cmd(st: CardState, fid: u16) -> Seq<u8> {
    if st.profile == CardProfile::Gen2 {
        seq![st.cla, 0xA4u8, 0x00u8, 0x04u8, 0x02u8, (fid >> 8u16) as u8, (fid & 0xFFu16) as u8, 0x00u8]
    } else {
        seq![st.cla, 0xA4u8, 0x00u8, 0x00u8, 0x02u8, (fid >> 8u16) as u8, (fid & 0xFFu16) as u8]
    }
}

/// SELECT file `fid` (`7FFF` stands for the applet on gen2 cards); succeeds
/// on `90 00` or a `62 xx` warning.
pub open spec fn spec_select_fid(st: CardState, fid: u16, log: Seq<Option<Response>>, at: int) -> SFlow<Result<(), ()>> {
    if fid == 0x7FFF && st.profile == CardProfile::Gen2 {
        gen2::spec_select_aid(log, at)
    } else if at >= log.len() {
        SFlow::Transmit(select_fid_cmd(st, fid))
    } else {
        SFlow::Done(if answered_ok_or_warning(log[at]) { Ok(()) } else { Err(()) }, at + 1)
    }
}

/// SELECT the file `fid`.
pub fn select_fid(st: &CardState, fid: u16, log: &[Option<Response>], at: usize) -> (r: Flow<Result<(), ()>>)
    requires
        at <= log@.len(),
    ensures
        same_flow(r, spec_select_fid(*st, fid, log@, at as int)),
        flow_within(r, at as int, log@.len() as int),
{
    if fid == 0x7FFF && st.profile == CardProfile::Gen2 {
        return gen2::select_aid(log, at);
    }
    if at >= log.len() {
        let mut cmd: Vec<u8> = vec![st.cla, 0xA4, 0x00, 0x00, 0x02, (fid >> 8) as u8, (fid & 0xFF) as u8];
        if st.profile == CardProfile::Gen2 {
            cmd.set(3, 0x04);
            cmd.push(0x00);
        }
        assert(cmd@ =~= select_fid_cmd(*st, fid));
        return Flow::Transmit(cmd);
    }
    let ok = match status(&log[at]) {
        Some(sw) => ok_or_warning(sw),
        None => false,
    };
    Flow::Done(if ok { Ok(()) } else { Err(()) }, at + 1)
}

/// File identifier made of bytes `i` and `i + 1` of a path.
pub open spec fn path_fid(path: Seq<u8>, i: int) -> u16 {
    (((path[i] as u16) << 8u16) | path[i + 1] as u16) as u16
}

/// Selecting the remaining components of `path` from component offset `i`.
pub open spec fn spec_select_path_from(
    st: CardState,
    path: Seq<u8>,
    from_mf: bool,
    i: int,
    log: Seq<Option<Response>>,
    at: int,
) -> SFlow<Result<(), ()>>
    decreases path.len() - i,
{
    if i < 0 || i + 1 >= path.len() {
        SFlow::Done(Ok(()), at)
    } else if i == 0 && path[0] == 0x3F && path[1] == 0x00 && from_mf {
        spec_select_path_from(st, path, from_mf, i + 2, log, at)
    } else {
        let step = if path[i] == 0x7F && path[i + 1] == 0xFF {
            gen2::spec_select_aid(log, at)
        } else {
            spec_select_fid(st, path_fid(path, i), log, at)
        };
        match step {
            SFlow::Transmit(c) => SFlow::Transmit(c),
            SFlow::Done(Err(()), n) => SFlow::Done(Err(()), n),
            SFlow::Done(Ok(()), n) => spec_select_path_from(st, path, from_mf, i + 2, log, n),
        }
    }
}

/// A dialogue outcome paired with a card state.
pub open spec fn with_state(f: SFlow<Result<(), ()>>, s: CardState) -> SFlow<(Result<(), ()>, CardState)> {
    match f {
        SFlow::Transmit(c) => SFlow::Transmit(c),
        SFlow::Done(r, m) => SFlow::Done((r, s), m),
    }
}

/// SELECT along a path of file identifiers, optionally from the MF.
pub open spec fn spec_select_path(st: CardState, path: Seq<u8>, from_mf: bool, log: Seq<Option<Response>>, at: int)
    -> SFlow<(Result<(), ()>, CardState)> {
    if path.len() == 0 || path.len() % 2 != 0 {
        SFlow::Done((Err(()), st), at)
    } else if from_mf {
        match spec_select_mf(st, log, at) {
            SFlow::Transmit(c) => SFlow::Transmit(c),
            SFlow::Done((Err(()), s), n) => SFlow::Done((Err(()), s), n),
            SFlow::Done((Ok(()), s), n) => with_state(spec_select_path_from(s, path, from_mf, 0, log, n), s),
        }
    } else {
        with_state(spec_select_path_from(st, path, from_mf, 0, log, at), st)
    }
}

/// SELECT each file of `path` in turn (`3F00` first is the MF when starting
/// from it; `7FFF` is the gen2 applet).
pub fn select_path(st: &CardState, path: &[u8], from_mf: bool, log: &[Option<Response>], at: usize)
    -> (r: Flow<(Result<(), ()>, CardState)>)
    requires
        at <= log@.len(),
    ensures
        same_flow(r, spec_select_path(*st, path@, from_mf, log@, at as int)),
        flow_within(r, at as int, log@.len() as int),
{
    if path.len() == 0 || path.len() % 2 != 0 {
        return Flow::Done((Err(()), *st), at);
    }
    let mut s = *st;
    let mut pos = at;
    if from_mf {
        match select_mf(st, log, at) {
            Flow::Transmit(c) => return Flow::Transmit(c),
            Flow::Done((Err(()), s2), n) => return Flow::Done((Err(()), s2), n),
            Flow::Done((Ok(()), s2), n) => {
                s = s2;
                pos = n;
            },
        }
    }
    let ghost start = pos;
    let mut i: usize = 0;
    while i + 1 < path.len()
        invariant
            path@.len() % 2 == 0,
            i % 2 == 0,
            i <= path@.len(),
            at <= pos <= log@.len(),
            spec_select_path(*st, path@, from_mf, log@, at as int)
                == with_state(spec_select_path_from(s, path@, from_mf, 0, log@, start as int), s),
            spec_select_path_from(s, path@, from_mf, 0, log@, start as int)
                == spec_select_path_from(s, path@, from_mf, i as int, log@, pos as int),
        decreases path@.len() - i,
    {
        if i == 0 && path[0] == 0x3F && path[1] == 0x00 && from_mf {
            i += 2;
            continue;
        }
        let step = if path[i] == 0x7F && path[i + 1] == 0xFF {
            gen2::select_aid(log, pos)
        } else {
            let fid: u16 = ((path[i] as u16) << 8) | path[i + 1] as u16;
            select_fid(&s, fid, log, pos)
        };
        match step {
            Flow::Transmit(c) => return Flow::Transmit(c),
            Flow::Done(Err(()), n) => return Flow::Done((Err(()), s), n),
            Flow::Done(Ok(()), n) => {
                pos = n;
            },
        }
        i += 2;
    }
    Flow::Done((Ok(()), s), pos)
}

/// READ BINARY of `want` bytes at `offset` (15-bit offsets).
pub open spec fn read_binary_cmd(cla: u8, offset: int, want: int) -> Seq<u8> {
    seq![cla, 0xB0u8, ((offset / 256) % 128) as u8, (offset % 256) as u8, want as u8]
}

/// One READ BINARY attempt asking for `try_want` bytes; a `69 87` answer to
/// a request for more than 16 bytes is retried with 16.
pub open spec fn spec_read_binary_try(st: CardState, offset: int, want: int, try_want: int, log: Seq<Option<Response>>, at: int)
    -> SFlow<Result<Seq<u8>, ()>>
    decreases try_want,
{
    if at >= log.len() {
        SFlow::Transmit(read_binary_cmd(st.cla, offset, try_want))
    } else {
        match log[at] {
            None => SFlow::Done(Err(()), at + 1),
            Some(r) => if r.sw == 0x6987 && try_want > 16 {
                spec_read_binary_try(st, offset, want, 16, log, at + 1)
            } else if !(r.sw == 0x9000 || r.sw & 0xFF00 == 0x6200) {
                SFlow::Done(Err(()), at + 1)
            } else {
                SFlow::Done(Ok(r.data@.take(if r.data@.len() <= want { r.data@.len() as int } else { want })), at + 1)
            },
        }
    }
}

/// READ BINARY of up to `want` (1..=255) bytes at `offset` (at most `7FFF`).
pub open spec fn spec_read_binary(st: CardState, offset: int, want: int, log: Seq<Option<Response>>, at: int)
    -> SFlow<Result<Seq<u8>, ()>> {
    if want == 0 || want > 255 || offset > 0x7FFF {
        SFlow::Done(Err(()), at)
    } else {
        spec_read_binary_try(st, offset, want, want, log, at)
    }
}

/// Bytes `0..min(len, n)` of a reply's data.
fn reply_prefix(data: &Vec<u8>, n: usize) -> (out: Vec<u8>)
    ensures
        out@ == data@.take(if data@.len() <= n { data@.len() as int } else { n as int }),
{
    let m = if data.len() <= n { data.len() } else { n };
    crate::bytes::sub_vec(data.as_slice(), 0, m)
}

/// READ BINARY into a buffer of `want` bytes; the data read comes back.
pub fn read_binary(st: &CardState, offset: u32, want: usize, log: &[Option<Response>], at: usize)
    -> (r: Flow<Result<Vec<u8>, ()>>)
    requires
        at <= log@.len(),
    ensures
        same_bytes_flow(r, spec_read_binary(*st, offset as int, want as int, log@, at as int)),
        r matches Flow::Done(_, n) ==> at <= n <= log@.len(),
        r matches Flow::Done(Ok(d), _) ==> d@.len() <= want && offset <= 0x7FFF,
{
    if want == 0 || want > 255 || offset > 0x7FFF {
        return Flow::Done(Err(()), at);
    }
    let mut try_want = want;
    let mut pos = at;
    loop
        invariant
            at <= pos <= log@.len(),
            0 < try_want <= want <= 255,
            offset <= 0x7FFF,
            spec_read_binary(*st, offset as int, want as int, log@, at as int)
                == spec_read_binary_try(*st, offset as int, want as int, try_want as int, log@, pos as int),
        decreases log@.len() - pos,
    {
        if pos >= log.len() {
            let cmd = vec![st.cla, 0xB0, ((offset >> 8) & 0x7F) as u8, (offset & 0xFF) as u8, try_want as u8];
            assert(((offset >> 8u32) & 0x7Fu32) == (offset / 256) % 128 && (offset & 0xFFu32) == offset % 256) by (bit_vector);
            assert(cmd@ =~= read_binary_cmd(st.cla, offset as int, try_want as int));
            return Flow::Transmit(cmd);
        }
        match &log[pos] {
            None => return Flow::Done(Err(()), pos + 1),
            Some(resp) => {
                if resp.sw == 0x6987 && try_want > 16 {
                    try_want = 16;
                    pos += 1;
                    continue;
                }
                if !ok_or_warning(resp.sw) {
                    return Flow::Done(Err(()), pos + 1);
                }
                return Flow::Done(Ok(reply_prefix(&resp.data, want)), pos + 1);
            },
        }
    }
}

/// The reply's data when the card answered `90 00` with a non-empty body.
pub open spec fn nonempty_ok_data(r: Option<Response>) -> Result<Seq<u8>, ()> {
    match r {
        Some(x) => if x.sw == 0x9000 && x.data@.len() > 0 { Ok(x.data@) } else { Err(()) },
        None => Err(()),
    }
}

/// READ RECORD `record` (P2 = `00`) asking for `want` (1..=255) bytes.
pub open spec fn spec_read_record(st: CardState, record: u8, want: int, log: Seq<Option<Response>>, at: int)
    -> SFlow<Result<Seq<u8>, ()>> {
    if want == 0 || want > 255 {
        SFlow::Done(Err(()), at)
    } else if at >= log.len() {
        SFlow::Transmit(seq![st.cla, 0xB2u8, record, 0x00u8, want as u8])
    } else {
        SFlow::Done(nonempty_ok_data(log[at]), at + 1)
    }
}

/// The data of the reply at `at` when it is `90 00` with a non-empty body.
pub fn take_nonempty_ok(log: &[Option<Response>], at: usize) -> (r: Result<Vec<u8>, ()>)
    requires
        at < log@.len(),
    ensures
        match (r, nonempty_ok_data(log@[at as int])) {
            (Ok(a), Ok(b)) => a@ == b,
            (Err(_), Err(_)) => true,
            _ => false,
        },
{
    match &log[at] {
        Some(x) => if x.sw == 0x9000 && x.data.len() > 0 {
            Ok(crate::bytes::bytes_to_vec(x.data.as_slice()))
        } else {
            Err(())
        },
        None => Err(()),
    }
}

/// READ RECORD with P2 = `00` (gen1 key EF style).
pub fn read_record(st: &CardState, record: u8, want: usize, log: &[Option<Response>], at: usize)
    -> (r: Flow<Result<Vec<u8>, ()>>)
    requires
        at <= log@.len(),
    ensures
        same_bytes_flow(r, spec_read_record(*st, record, want as int, log@, at as int)),
        flow_within(r, at as int, log@.len() as int),
{
    if want == 0 || want > 255 {
        return Flow::Done(Err(()), at);
    }
    if at >= log.len() {
        let cmd = vec![st.cla, 0xB2, record, 0x00, want as u8];
        assert(cmd@ =~= seq![st.cla, 0xB2u8, record, 0x00u8, want as u8]);
        return Flow::Transmit(cmd);
    }
    Flow::Done(take_nonempty_ok(log, at), at + 1)
}

/// The bytes gathered so far as the final outcome: refused when empty.
pub open spec fn gathered(out: Seq<u8>, at: int) -> SFlow<Result<Seq<u8>, ()>> {
    if out.len() == 0 {
        SFlow::Done(Err(()), at)
    } else {
        SFlow::Done(Ok(out), at)
    }
}

/// Reading the rest of a range of `len` bytes, `out` having been read and
/// `off` being the next offset.
pub open spec fn spec_read_range_from(st: CardState, off: int, len: int, out: Seq<u8>, log: Seq<Option<Response>>, at: int)
    -> SFlow<Result<Seq<u8>, ()>>
    decreases (if out.len() < len { len - out.len() } else { 0 }),
{
    if out.len() >= len {
        gathered(out, at)
    } else {
        let want = if CHUNK <= len - out.len() { CHUNK as int } else { len - out.len() };
        match spec_read_binary(st, off, want, log, at) {
            SFlow::Transmit(c) => SFlow::Transmit(c),
            SFlow::Done(Err(()), n) => SFlow::Done(Err(()), n),
            SFlow::Done(Ok(d), n) => if d.len() == 0 {
                gathered(out, n)
            } else if d.len() < want {
                gathered(out + d, n)
            } else {
                proof {
                    assert(want > 0);
                    assert(d.len() >= want);
                    assert((out + d).len() == out.len() + d.len());
                }
                spec_read_range_from(st, off + d.len(), len, out + d, log, n)
            },
        }
    }
}

/// Read `len` bytes starting at `offset` from the current EF, in chunks of
/// at most `0xC8` bytes, stopping early at a short read.
pub fn read_binary_range(st: &CardState, offset: u32, len: usize, log: &[Option<Response>], at: usize)
    -> (r: Flow<Result<Vec<u8>, ()>>)
    requires
        at <= log@.len(),
    ensures
        same_bytes_flow(r, spec_read_range_from(*st, offset as int, len as int, Seq::empty(), log@, at as int)),
        flow_within(r, at as int, log@.len() as int),
{
    let mut out: Vec<u8> = Vec::new();
    let mut off = offset;
    let mut pos = at;
    while out.len() < len
        invariant
            at <= pos <= log@.len(),
            spec_read_range_from(*st, offset as int, len as int, Seq::empty(), log@, at as int)
                == spec_read_range_from(*st, off as int, len as int, out@, log@, pos as int),
        decreases len - out@.len(),
    {
        let want = if CHUNK <= len - out.len() { CHUNK } else { len - out.len() };
        match read_binary(st, off, want, log, pos) {
            Flow::Transmit(c) => return Flow::Transmit(c),
            Flow::Done(Err(()), n) => return Flow::Done(Err(()), n),
            Flow::Done(Ok(d), n) => {
                pos = n;
                if d.len() == 0 {
                    return gathered_flow(out, pos);
                }
                let got = d.len();
                let ghost old_out = out@;
                out.extend_from_slice(&d);
                assert(out@ =~= old_out + d@);
                if got < want {
                    return gathered_flow(out, pos);
                }
                off = off + got as u32;
            },
        }
    }
    gathered_flow(out, pos)
}

/// The bytes gathered so far as the final outcome: refused when empty.
pub fn gathered_flow(out: Vec<u8>, at: usize) -> (r: Flow<Result<Vec<u8>, ()>>)
    ensures
        same_bytes_flow(r, gathered(out@, at as int)),
        r matches Flow::Done(_, n) && n == at,
{
    if out.len() == 0 {
        Flow::Done(Err(()), at)
    } else {
        Flow::Done(Ok(out), at)
    }
}

/// Reading the rest of the current EF in 32-byte chunks from `off`.
pub open spec fn spec_read_ef_from(st: CardState, off: int, buf: Seq<u8>, log: Seq<Option<Response>>, at: int)
    -> SFlow<Result<Seq<u8>, ()>>
    decreases (if off <= 0x10000 { 0x10001 - off } else { 0 }),
{
    if off < 0 {
        gathered(buf, at)
    } else {
        match spec_read_binary(st, off, 0x20, log, at) {
            SFlow::Transmit(c) => SFlow::Transmit(c),
            SFlow::Done(Err(()), n) => gathered(buf, n),
            SFlow::Done(Ok(d), n) => if d.len() == 0 {
                gathered(buf, n)
            } else if d.len() < 0x20 {
                gathered(buf + d, n)
            } else if off + d.len() > 0x10000 {
                SFlow::Done(Err(()), n)
            } else {
                spec_read_ef_from(st, off + d.len(), buf + d, log, n)
            },
        }
    }
}

/// Read the whole current EF: 32-byte chunks until a short or failed read.
pub fn read_ef(st: &CardState, log: &[Option<Response>], at: usize) -> (r: Flow<Result<Vec<u8>, ()>>)
    requires
        at <= log@.len(),
    ensures
        same_bytes_flow(r, spec_read_ef_from(*st, 0, Seq::empty(), log@, at as int)),
        r matches Flow::Done(_, n) ==> at <= n <= log@.len(),
{
    let mut buf: Vec<u8> = Vec::new();
    let mut off: u32 = 0;
    let mut pos = at;
    let chunk_sz: usize = 0x20;
    loop
        invariant
            at <= pos <= log@.len(),
            off <= 0x10000,
            chunk_sz == 0x20,
            spec_read_ef_from(*st, 0, Seq::empty(), log@, at as int)
                == spec_read_ef_from(*st, off as int, buf@, log@, pos as int),
        decreases 0x10001 - off,
    {
        match read_binary(st, off, chunk_sz, log, pos) {
            Flow::Transmit(c) => return Flow::Transmit(c),
            Flow::Done(Err(()), n) => return gathered_flow(buf, n),
            Flow::Done(Ok(d), n) => {
                pos = n;
                let got = d.len();
                if got == 0 {
                    return gathered_flow(buf, pos);
                }
                let ghost old_buf = buf@;
                buf.extend_from_slice(&d);
                assert(buf@ =~= old_buf + d@);
                if got < chunk_sz {
                    return gathered_flow(buf, pos);
                }
                off = off + got as u32;
                if off > 64 * 1024 {
                    return Flow::Done(Err(()), pos);
                }
            },
        }
    }
}

/// MANAGE SECURITY ENVIRONMENT for signing with key `key_ref`.
pub open spec fn mse_dst_cmd(cla: u8, key_ref: u8) -> Seq<u8> {
    seq![cla, 0x22u8, 0x41u8, 0xA4u8, 0x06u8, 0x84u8, 0x01u8, key_ref, 0x80u8, 0x01u8, 0x02u8]
}

/// MSE SET for digital signature: succeeds on `90 00`.
pub open spec fn spec_mse_set_dst(st: CardState, key_ref: u8, log: Seq<Option<Response>>, at: int) -> SFlow<Result<(), ()>> {
    if at >= log.len() {
        SFlow::Transmit(mse_dst_cmd(st.cla, key_ref))
    } else {
        SFlow::Done(if answered(log[at], 0x9000) { Ok(()) } else { Err(()) }, at + 1)
    }
}

pub fn mse_set_dst(st: &CardState, key_ref: u8, log: &[Option<Response>], at: usize) -> (r: Flow<Result<(), ()>>)
    requires
        at <= log@.len(),
    ensures
        same_flow(r, spec_mse_set_dst(*st, key_ref, log@, at as int)),
        flow_within(r, at as int, log@.len() as int),
{
    if at >= log.len() {
        let cmd = vec![st.cla, 0x22, 0x41, 0xA4, 0x06, 0x84, 0x01, key_ref, 0x80, 0x01, 0x02];
        assert(cmd@ =~= mse_dst_cmd(st.cla, key_ref));
        return Flow::Transmit(cmd);
    }
    Flow::Done(if reply_is(log, at, 0x9000) { Ok(()) } else { Err(()) }, at + 1)
}

/// MANAGE SECURITY ENVIRONMENT for deciphering with key `key_ref`, the key
/// reference carried in tag `tag` (`84`, then `83`).
pub open spec fn mse_decipher_cmd(cla: u8, tag: u8, key_ref: u8) -> Seq<u8> {
    seq![cla, 0x22u8, 0x41u8, 0xB8u8, 0x06u8, tag, 0x01u8, key_ref, 0x80u8, 0x01u8, 0x02u8]
}

/// MSE SET for deciphering: tag `84` first; on a non-`90 00` answer tag
/// `83`. A transport failure ends it.
pub open spec fn spec_mse_set_decipher(st: CardState, key_ref: u8, log: Seq<Option<Response>>, at: int) -> SFlow<Result<(), ()>> {
    if at >= log.len() {
        SFlow::Transmit(mse_decipher_cmd(st.cla, 0x84, key_ref))
    } else if log[at] is None {
        SFlow::Done(Err(()), at + 1)
    } else if answered(log[at], 0x9000) {
        SFlow::Done(Ok(()), at + 1)
    } else if at + 1 >= log.len() {
        SFlow::Transmit(mse_decipher_cmd(st.cla, 0x83, key_ref))
    } else {
        SFlow::Done(if answered(log[at + 1], 0x9000) { Ok(()) } else { Err(()) }, at + 2)
    }
}

pub fn mse_set_decipher(st: &CardState, key_ref: u8, log: &[Option<Response>], at: usize) -> (r: Flow<Result<(), ()>>)
    requires
        at <= log@.len(),
    ensures
        same_flow(r, spec_mse_set_decipher(*st, key_ref, log@, at as int)),
        flow_within(r, at as int, log@.len() as int),
{
    let mut cmd = vec![st.cla, 0x22, 0x41, 0xB8, 0x06, 0x84, 0x01, key_ref, 0x80, 0x01, 0x02];
    if at >= log.len() {
        assert(cmd@ =~= mse_decipher_cmd(st.cla, 0x84, key_ref));
        return Flow::Transmit(cmd);
    }
    match status(&log[at]) {
        None => return Flow::Done(Err(()), at + 1),
        Some(sw) => if sw == 0x9000 {
            return Flow::Done(Ok(()), at + 1);
        },
    }
    cmd.set(5, 0x83);
    if at + 1 >= log.len() {
        assert(cmd@ =~= mse_decipher_cmd(st.cla, 0x83, key_ref));
        return Flow::Transmit(cmd);
    }
    Flow::Done(if reply_is(log, at + 1, 0x9000) { Ok(()) } else { Err(()) }, at + 2)
}

/// A reply's data if the card answered `90 00` and it fits in `cap` bytes.
pub open spec fn ok_data_within(r: Option<Response>, cap: int) -> Result<Seq<u8>, ()> {
    match r {
        Some(x) => if x.sw == 0x9000 && x.data@.len() <= cap { Ok(x.data@) } else { Err(()) },
        None => Err(()),
    }
}

pub fn take_ok_within(log: &[Option<Response>], at: usize, cap: usize) -> (r: Result<Vec<u8>, ()>)
    requires
        at < log@.len(),
    ensures
        match (r, ok_data_within(log@[at as int], cap as int)) {
            (Ok(a), Ok(b)) => a@ == b,
            (Err(_), Err(_)) => true,
            _ => false,
        },
{
    match &log[at] {
        Some(x) => if x.sw == 0x9000 && x.data.len() <= cap {
            Ok(crate::bytes::bytes_to_vec(x.data.as_slice()))
        } else {
            Err(())
        },
        None => Err(()),
    }
}

/// PERFORM SECURITY OPERATION: COMPUTE DIGITAL SIGNATURE over `data`.
pub open spec fn pso_cds_cmd(cla: u8, data: Seq<u8>) -> Seq<u8> {
    seq![cla, 0x2Au8, 0x9Eu8, 0x9Au8, data.len() as u8] + data + seq![0x00u8]
}

/// PSO CDS: the signature when the card answers `90 00` and it fits `out_cap`.
pub open spec fn spec_pso_cds(st: CardState, data: Seq<u8>, out_cap: int, log: Seq<Option<Response>>, at: int)
    -> SFlow<Result<Seq<u8>, ()>> {
    if data.len() == 0 || data.len() > 255 {
        SFlow::Done(Err(()), at)
    } else if at >= log.len() {
        SFlow::Transmit(pso_cds_cmd(st.cla, data))
    } else {
        SFlow::Done(ok_data_within(log[at], out_cap), at + 1)
    }
}

pub fn pso_cds(st: &CardState, data: &[u8], out_cap: usize, log: &[Option<Response>], at: usize)
    -> (r: Flow<Result<Vec<u8>, ()>>)
    requires
        at <= log@.len(),
    ensures
        same_bytes_flow(r, spec_pso_cds(*st, data@, out_cap as int, log@, at as int)),
        flow_within(r, at as int, log@.len() as int),
{
    if data.len() == 0 || data.len() > 255 {
        return Flow::Done(Err(()), at);
    }
    if at >= log.len() {
        let mut cmd = vec![st.cla, 0x2A, 0x9E, 0x9A, data.len() as u8];
        cmd.extend_from_slice(data);
        cmd.push(0x00);
        assert(cmd@ =~= pso_cds_cmd(st.cla, data@));
        return Flow::Transmit(cmd);
    }
    Flow::Done(take_ok_within(log, at, out_cap), at + 1)
}

/// PSO DECIPHER of `cipher`, with (`lc_extra`) or without the padding
/// indicator byte `00` in front.
pub open spec fn pso_decipher_cmd(cla: u8, cipher: Seq<u8>, with_indicator: bool) -> Seq<u8> {
    if with_indicator {
        seq![cla, 0x2Au8, 0x80u8, 0x86u8, (cipher.len() + 1) as u8, 0x00u8] + cipher + seq![0x00u8]
    } else {
        seq![cla, 0x2Au8, 0x80u8, 0x86u8, cipher.len() as u8] + cipher + seq![0x00u8]
    }
}

/// PSO DECIPHER: with the padding indicator first; on a non-`90 00` answer
/// again without it.
pub open spec fn spec_pso_decipher(st: CardState, cipher: Seq<u8>, out_cap: int, log: Seq<Option<Response>>, at: int)
    -> SFlow<Result<Seq<u8>, ()>> {
    if cipher.len() == 0 || cipher.len() > 512 || cipher.len() + 1 > 255 {
        SFlow::Done(Err(()), at)
    } else if at >= log.len() {
        SFlow::Transmit(pso_decipher_cmd(st.cla, cipher, true))
    } else if log[at] is None {
        SFlow::Done(Err(()), at + 1)
    } else if answered(log[at], 0x9000) {
        SFlow::Done(ok_data_within(log[at], out_cap), at + 1)
    } else if at + 1 >= log.len() {
        SFlow::Transmit(pso_decipher_cmd(st.cla, cipher, false))
    } else {
        SFlow::Done(ok_data_within(log[at + 1], out_cap), at + 2)
    }
}

pub fn pso_decipher(st: &CardState, cipher: &[u8], out_cap: usize, log: &[Option<Response>], at: usize)
    -> (r: Flow<Result<Vec<u8>, ()>>)
    requires
        at <= log@.len(),
    ensures
        same_bytes_flow(r, spec_pso_decipher(*st, cipher@, out_cap as int, log@, at as int)),
        flow_within(r, at as int, log@.len() as int),
{
    if cipher.len() == 0 || cipher.len() > 512 {
        return Flow::Done(Err(()), at);
    }
    let lc = cipher.len() + 1;
    if lc > 255 {
        return Flow::Done(Err(()), at);
    }
    if at >= log.len() {
        let mut cmd = vec![st.cla, 0x2A, 0x80, 0x86, lc as u8, 0x00];
        cmd.extend_from_slice(cipher);
        cmd.push(0x00);
        assert(cmd@ =~= pso_decipher_cmd(st.cla, cipher@, true));
        return Flow::Transmit(cmd);
    }
    match status(&log[at]) {
        None => return Flow::Done(Err(()), at + 1),
        Some(sw) => if sw == 0x9000 {
            return Flow::Done(take_ok_within(log, at, out_cap), at + 1);
        },
    }
    if at + 1 >= log.len() {
        let mut cmd = vec![st.cla, 0x2A, 0x80, 0x86, cipher.len() as u8];
        cmd.extend_from_slice(cipher);
        cmd.push(0x00);
        assert(cmd@ =~= pso_decipher_cmd(st.cla, cipher@, false));
        return Flow::Transmit(cmd);
    }
    Flow::Done(take_ok_within(log, at + 1, out_cap), at + 2)
}

/// Everything a connection knows: class byte and profile, and the gen2
/// authentication state.
pub struct Connection {
    pub card: CardState,
    pub auth: gen2::AuthState,
}

/// What a connection knows.
pub struct ConnectionModel {
    pub card: CardState,
    pub auth: gen2::AuthModel,
}

impl View for Connection {
    type V = ConnectionModel;

    open spec fn view(&self) -> ConnectionModel {
        ConnectionModel { card: self.card, auth: self.auth@ }
    }
}

impl Connection {
    pub open spec fn wf(&self) -> bool {
        self.auth.wf()
    }

    /// A connection nothing has been learned about.
    pub fn new() -> (c: Self)
        ensures
            c.wf(),
            c.card == initial_state(),
            gen2::same_auth(c.auth@, gen2::cleared_auth()),
    {
        Connection { card: CardState { cla: 0x80, cla_locked: false, profile: CardProfile::Gen1 }, auth: gen2::AuthState::new() }
    }
}

/// Two connection states hold the same.
pub open spec fn same_conn(a: ConnectionModel, b: ConnectionModel) -> bool {
    a.card == b.card && gen2::same_auth(a.auth, b.auth)
}

/// Relation of an outcome and connection to what they describe.
pub open spec fn same_pin_conn(a: (PinResult, Connection), b: (PinResult, ConnectionModel)) -> bool {
    a.0 == b.0 && same_conn(a.1@, b.1) && a.1.wf()
}

/// Relation of a byte outcome and connection to what they describe.
pub open spec fn same_bytes_conn(a: (Result<Vec<u8>, ()>, Connection), b: (Result<Seq<u8>, ()>, ConnectionModel)) -> bool {
    &&& match (a.0, b.0) {
        (Ok(x), Ok(y)) => x@ == y,
        (Err(_), Err(_)) => true,
        _ => false,
    }
    &&& same_conn(a.1@, b.1)
    &&& a.1.wf()
}

/// PIN VERIFY by the active profile; `random` is the gen1 IV or the gen2
/// host challenge.
pub open spec fn spec_verify_pin(c: ConnectionModel, pin: Seq<u8>, random: Option<Seq<u8>>, log: Seq<Option<Response>>, at: int)
    -> SFlow<(PinResult, ConnectionModel)> {
    match c.card.profile {
        CardProfile::Gen1 => then(
            gen1::spec_verify_pin(c.card, pin, random, log, at),
            |v: (PinResult, CardState), n: int| SFlow::Done((v.0, ConnectionModel { card: v.1, auth: c.auth }), n),
        ),
        CardProfile::Gen2 => then(
            gen2::spec_verify_pin(c.auth, pin, random, log, at),
            |v: (PinResult, gen2::AuthModel), n: int| SFlow::Done((v.0, ConnectionModel { card: c.card, auth: v.1 }), n),
        ),
    }
}

/// Dispatch PIN VERIFY to the active card profile.
pub fn verify_pin(c: &Connection, pin_ref: u8, pin: &[u8], random: &Option<Vec<u8>>, log: &[Option<Response>], at: usize)
    -> (r: Flow<(PinResult, Connection)>)
    requires
        c.wf(),
        random matches Some(v) ==> v@.len() == 8,
        at <= log@.len(),
    ensures
        flow_matches(
            r,
            spec_verify_pin(c@, pin@, match random { Some(v) => Some(v@), None => None }, log@, at as int),
            |a, b| same_pin_conn(a, b),
        ),
{
    match c.card.profile {
        CardProfile::Gen1 => match gen1::verify_pin(&c.card, pin_ref, pin, random, log, at) {
            Flow::Transmit(x) => Flow::Transmit(x),
            Flow::Done((p, s), n) => Flow::Done((p, Connection { card: s, auth: c.auth.copy() }), n),
        },
        CardProfile::Gen2 => match gen2::verify_pin(&c.auth, pin_ref, pin, random, log, at) {
            Flow::Transmit(x) => Flow::Transmit(x),
            Flow::Done((p, a), n) => Flow::Done((p, Connection { card: c.card, auth: a }), n),
        },
    }
}

/// Clear the gen2 authentication state (channel, cached PIN and keys) on
/// logout; a gen1 connection holds none.
pub fn clear_auth_state(c: &mut Connection)
    requires
        old(c).wf(),
    ensures
        final(c).wf(),
        final(c).card == old(c).card,
        old(c).card.profile == CardProfile::Gen2 ==> gen2::same_auth(final(c).auth@, gen2::cleared_auth()),
        old(c).card.profile == CardProfile::Gen1 ==> gen2::same_auth(final(c).auth@, old(c).auth@),
{
    if c.card.profile == CardProfile::Gen2 {
        gen2::clear_auth_state(&mut c.auth);
    }
}

/// RSA sign by the active profile into a buffer of `out_cap` bytes.
pub open spec fn spec_sign(c: ConnectionModel, key_ref: u8, data: Seq<u8>, out_cap: int, random: Option<Seq<u8>>, log: Seq<Option<Response>>, at: int)
    -> SFlow<(Result<Seq<u8>, ()>, ConnectionModel)> {
    match c.card.profile {
        CardProfile::Gen1 => then(
            gen1::spec_sign(c.card, key_ref, data, out_cap, log, at),
            |v: (Result<Seq<u8>, ()>, CardState), n: int| SFlow::Done((v.0, ConnectionModel { card: v.1, auth: c.auth }), n),
        ),
        CardProfile::Gen2 => then(
            gen2::spec_sign(c.auth, key_ref, data, out_cap, random, log, at),
            |v: (Result<Seq<u8>, ()>, gen2::AuthModel), n: int| SFlow::Done((v.0, ConnectionModel { card: c.card, auth: v.1 }), n),
        ),
    }
}

/// Dispatch RSA sign to the active card profile.
pub fn sign(c: &Connection, key_ref: u8, data: &[u8], out_cap: usize, random: &Option<Vec<u8>>, log: &[Option<Response>], at: usize)
    -> (r: Flow<(Result<Vec<u8>, ()>, Connection)>)
    requires
        c.wf(),
        random matches Some(v) ==> v@.len() == 8,
        at <= log@.len(),
    ensures
        flow_matches(
            r,
            spec_sign(c@, key_ref, data@, out_cap as int, match random { Some(v) => Some(v@), None => None }, log@, at as int),
            |a, b| same_bytes_conn(a, b),
        ),
{
    match c.card.profile {
        CardProfile::Gen1 => match gen1::sign(&c.card, key_ref, data, out_cap, log, at) {
            Flow::Transmit(x) => Flow::Transmit(x),
            Flow::Done((v, s), n) => Flow::Done((v, Connection { card: s, auth: c.auth.copy() }), n),
        },
        CardProfile::Gen2 => match gen2::sign(&c.auth, key_ref, data, out_cap, random, log, at) {
            Flow::Transmit(x) => Flow::Transmit(x),
            Flow::Done((v, a), n) => Flow::Done((v, Connection { card: c.card, auth: a }), n),
        },
    }
}

/// RSA decrypt (`CKM_RSA_PKCS`) by the active profile: the same private
/// operation as sign, then type-2 unpadding on the host.
pub open spec fn spec_decrypt(c: ConnectionModel, key_ref: u8, cipher: Seq<u8>, out_cap: int, random: Option<Seq<u8>>, log: Seq<Option<Response>>, at: int)
    -> SFlow<(Result<Seq<u8>, ()>, ConnectionModel)> {
    match c.card.profile {
        CardProfile::Gen1 => then(
            gen1::spec_decrypt(c.card, key_ref, cipher, out_cap, log, at),
            |v: (Result<Seq<u8>, ()>, CardState), n: int| SFlow::Done((v.0, ConnectionModel { card: v.1, auth: c.auth }), n),
        ),
        CardProfile::Gen2 => then(
            gen2::spec_decrypt(c.auth, key_ref, cipher, out_cap, random, log, at),
            |v: (Result<Seq<u8>, ()>, gen2::AuthModel), n: int| SFlow::Done((v.0, ConnectionModel { card: c.card, auth: v.1 }), n),
        ),
    }
}

/// Dispatch RSA decrypt to the active card profile.
pub fn decrypt(c: &Connection, key_ref: u8, cipher: &[u8], out_cap: usize, random: &Option<Vec<u8>>, log: &[Option<Response>], at: usize)
    -> (r: Flow<(Result<Vec<u8>, ()>, Connection)>)
    requires
        c.wf(),
        random matches Some(v) ==> v@.len() == 8,
        at <= log@.len(),
    ensures
        flow_matches(
            r,
            spec_decrypt(c@, key_ref, cipher@, out_cap as int, match random { Some(v) => Some(v@), None => None }, log@, at as int),
            |a, b| same_bytes_conn(a, b),
        ),
{
    match c.card.profile {
        CardProfile::Gen1 => match gen1::decrypt(&c.card, key_ref, cipher, out_cap, log, at) {
            Flow::Transmit(x) => Flow::Transmit(x),
            Flow::Done((v, s), n) => Flow::Done((v, Connection { card: s, auth: c.auth.copy() }), n),
        },
        CardProfile::Gen2 => match gen2::decrypt(&c.auth, key_ref, cipher, out_cap, random, log, at) {
            Flow::Transmit(x) => Flow::Transmit(x),
            Flow::Done((v, a), n) => Flow::Done((v, Connection { card: c.card, auth: a }), n),
        },
    }
}

/// Raw RSA private operation (one 256-byte block in, one out) by the
/// active profile.
pub open spec fn spec_rsa_private_op(c: ConnectionModel, key_ref: u8, input: Seq<u8>, out_cap: int, random: Option<Seq<u8>>, log: Seq<Option<Response>>, at: int)
    -> SFlow<(Result<Seq<u8>, ()>, ConnectionModel)> {
    match c.card.profile {
        CardProfile::Gen1 => then(
            gen1::spec_rsa_private_op(c.card, key_ref, input, out_cap, log, at),
            |v: (Result<Seq<u8>, ()>, CardState), n: int| SFlow::Done((v.0, ConnectionModel { card: v.1, auth: c.auth }), n),
        ),
        CardProfile::Gen2 => then(
            gen2::spec_rsa_private_op(c.auth, key_ref, input, out_cap, random, log, at),
            |v: (Result<Seq<u8>, ()>, gen2::AuthModel), n: int| SFlow::Done((v.0, ConnectionModel { card: c.card, auth: v.1 }), n),
        ),
    }
}

/// Dispatch the raw RSA private operation to the active card profile.
pub fn rsa_private_op(c: &Connection, key_ref: u8, input: &[u8], out_cap: usize, random: &Option<Vec<u8>>, log: &[Option<Response>], at: usize)
    -> (r: Flow<(Result<Vec<u8>, ()>, Connection)>)
    requires
        c.wf(),
        random matches Some(v) ==> v@.len() == 8,
        at <= log@.len(),
    ensures
        flow_matches(
            r,
            spec_rsa_private_op(c@, key_ref, input@, out_cap as int, match random { Some(v) => Some(v@), None => None }, log@, at as int),
            |a, b| same_bytes_conn(a, b),
        ),
{
    match c.card.profile {
        CardProfile::Gen1 => match gen1::rsa_private_op(&c.card, key_ref, input, out_cap, log, at) {
            Flow::Transmit(x) => Flow::Transmit(x),
            Flow::Done((v, s), n) => Flow::Done((v, Connection { card: s, auth: c.auth.copy() }), n),
        },
        CardProfile::Gen2 => match gen2::rsa_private_op(&c.auth, key_ref, input, out_cap, random, log, at) {
            Flow::Transmit(x) => Flow::Transmit(x),
            Flow::Done((v, a), n) => Flow::Done((v, Connection { card: c.card, auth: a }), n),
        },
    }
}

} // verus!
