//! T=0 response handling of a PC/SC exchange: a `6C xx` answer repeats the
//! command with Le = `xx`, `61 xx` answers are collected with GET RESPONSE,
//! and the final status word is split from the data.

use crate::apdu::{Flow, SFlow};
use vstd::prelude::*;

verus! {

/// The status bytes at the end of a raw answer, `(0, 0)` when it is shorter than two bytes.
pub open spec fn sw_of(data: Seq<u8>) -> (u8, u8) {
    if data.len() >= 2 { (data[data.len() - 2], data[data.len() - 1]) } else { (0u8, 0u8) }
}

/// Split off the status bytes of a raw answer.
pub fn parse_sw(data: &[u8]) -> (r: (u8, u8))
    ensures
        r == sw_of(data@),
{
    if data.len() >= 2 {
        (data[data.len() - 2], data[data.len() - 1])
    } else {
        (0, 0)
    }
}

/// The final answer: status word and data (the bytes before the status).
pub open spec fn answer_of(acc: Seq<u8>) -> (u16, Seq<u8>) {
    let (sw1, sw2) = sw_of(acc);
    (
        ((sw1 as u16) * 256 + sw2 as u16) as u16,
        if acc.len() >= 2 { acc.take(acc.len() - 2) } else { Seq::empty() },
    )
}

/// GET RESPONSE for `n` bytes.
pub open spec fn get_response_cmd(n: u8) -> Seq<u8> {
    seq![0x00u8, 0xC0u8, 0x00u8, 0x00u8, n]
}

/// Collecting `61 xx` continuations from raw answer `at` on, `acc` holding
/// what came so far; each continuation replaces the two status bytes.
pub open spec fn collect_from(acc: Seq<u8>, raw: Seq<Option<Seq<u8>>>, at: int) -> SFlow<Result<(u16, Seq<u8>), ()>>
    decreases raw.len() - at,
{
    let (sw1, sw2) = sw_of(acc);
    if sw1 != 0x61 {
        SFlow::Done(Ok(answer_of(acc)), at)
    } else if at < 0 || at >= raw.len() {
        SFlow::Transmit(get_response_cmd(sw2))
    } else {
        match raw[at] {
            None => SFlow::Done(Err(()), at + 1),
            Some(more) => collect_from(
                (if acc.len() >= 2 { acc.take(acc.len() - 2) } else { acc }) + more,
                raw,
                at + 1,
            ),
        }
    }
}

/// One command exchange over raw transmissions (`None` where the
/// transport failed): a `6C xx` answer to a command of five bytes or more
/// repeats it with its last byte set to `xx`; then `61 xx` continuations
/// are collected.
pub open spec fn spec_exchange(cmd: Seq<u8>, raw: Seq<Option<Seq<u8>>>, at: int) -> SFlow<Result<(u16, Seq<u8>), ()>> {
    if at < 0 || at >= raw.len() {
        SFlow::Transmit(cmd)
    } else {
        match raw[at] {
            None => SFlow::Done(Err(()), at + 1),
            Some(d) => {
                let (sw1, sw2) = sw_of(d);
                if sw1 == 0x6C && cmd.len() >= 5 {
                    if at + 1 >= raw.len() {
                        SFlow::Transmit(cmd.update(cmd.len() - 1, sw2))
                    } else {
                        match raw[at + 1] {
                            None => SFlow::Done(Err(()), at + 2),
                            Some(d2) => collect_from(d2, raw, at + 2),
                        }
                    }
                } else {
                    collect_from(d, raw, at + 1)
                }
            },
        }
    }
}

/// An exchange outcome and what it describes.
pub open spec fn same_answer(a: Result<(u16, Vec<u8>), ()>, b: Result<(u16, Seq<u8>), ()>) -> bool {
    match (a, b) {
        (Ok((s, d)), Ok((s2, d2))) => s == s2 && d@ == d2,
        (Err(_), Err(_)) => true,
        _ => false,
    }
}

/// The raw answers as byte sequences.
pub open spec fn raw_view(raw: Seq<Option<Vec<u8>>>) -> Seq<Option<Seq<u8>>> {
    Seq::new(raw.len(), |i: int| match raw[i] {
        Some(v) => Some(v@),
        None => None,
    })
}

fn copy_raw(raw: &[Option<Vec<u8>>], i: usize) -> (r: Option<Vec<u8>>)
    requires
        i < raw@.len(),
    ensures
        match r {
            Some(v) => raw_view(raw@)[i as int] == Some(v@),
            None => raw_view(raw@)[i as int] is None,
        },
{
    match &raw[i] {
        Some(v) => Some(crate::bytes::bytes_to_vec(v)),
        None => None,
    }
}

/// Exchange `cmd` with the card, given the raw answers received so far.
pub fn exchange(cmd: &[u8], raw: &[Option<Vec<u8>>], at: usize) -> (r: Flow<Result<(u16, Vec<u8>), ()>>)
    requires
        at <= raw@.len(),
    ensures
        crate::apdu::flow_matches(r, spec_exchange(cmd@, raw_view(raw@), at as int), |a, b| same_answer(a, b)),
{
    let ghost rv = raw_view(raw@);
    if at >= raw.len() {
        return Flow::Transmit(crate::bytes::bytes_to_vec(cmd));
    }
    let first = match &raw[at] {
        None => return Flow::Done(Err(()), at + 1),
        Some(d) => d,
    };
    assert(rv[at as int] == Some(first@));
    let (sw1, sw2) = parse_sw(first);
    let mut acc: Vec<u8>;
    let mut pos: usize;
    if sw1 == 0x6C && cmd.len() >= 5 {
        if at + 1 >= raw.len() {
            let mut retry = crate::bytes::bytes_to_vec(cmd);
            let last = retry.len() - 1;
            retry.set(last, sw2);
            return Flow::Transmit(retry);
        }
        match &raw[at + 1] {
            None => return Flow::Done(Err(()), at + 2),
            Some(d2) => {
                assert(rv[at + 1] == Some(d2@));
                acc = crate::bytes::bytes_to_vec(d2);
                pos = at + 2;
            },
        }
    } else {
        acc = crate::bytes::bytes_to_vec(first);
        pos = at + 1;
    }
    collect(acc, raw, pos)
}

fn collect(acc: Vec<u8>, raw: &[Option<Vec<u8>>], pos: usize) -> (r: Flow<Result<(u16, Vec<u8>), ()>>)
    requires
        pos <= raw@.len(),
    ensures
        crate::apdu::flow_matches(r, collect_from(acc@, raw_view(raw@), pos as int), |a, b| same_answer(a, b)),
    decreases raw@.len() - pos,
{
    let mut acc = acc;
    let (s1, s2) = parse_sw(&acc);
    if s1 != 0x61 {
        let sw: u16 = (s1 as u16) * 256 + s2 as u16;
        let data = if acc.len() >= 2 { crate::bytes::sub_vec(&acc, 0, acc.len() - 2) } else { Vec::new() };
        assert(data@ =~= answer_of(acc@).1);
        return Flow::Done(Ok((sw, data)), pos);
    }
    if pos >= raw.len() {
        let cmd2 = vec![0x00, 0xC0, 0x00, 0x00, s2];
        assert(cmd2@ =~= get_response_cmd(s2));
        return Flow::Transmit(cmd2);
    }
    match copy_raw(raw, pos) {
        None => Flow::Done(Err(()), pos + 1),
        Some(more) => {
            let ghost before_all = acc@;
            if acc.len() >= 2 {
                let keep = acc.len() - 2;
                acc.truncate(keep);
            }
            let ghost before = acc@;
            acc.extend_from_slice(&more);
            assert(acc@ =~= before + more@);
            collect(acc, raw, pos + 1)
        },
    }
}

} // verus!
