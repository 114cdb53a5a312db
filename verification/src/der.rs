//! Minimal DER (ASN.1) reader for PKCS#15 structures.

use vstd::prelude::*;

verus! {

/// Big-endian unsigned value of a byte string.
pub open spec fn be_value(s: Seq<u8>) -> nat
    decreases s.len(),
{
    if s.len() == 0 {
        0
    } else {
        be_value(s.drop_last()) * 256 + s.last() as nat
    }
}

/// The tag of the element starting at `off`, with the offset just after it.
pub open spec fn tag_at(data: Seq<u8>, off: int) -> Option<(u32, int)> {
    if off < 0 || off >= data.len() {
        None
    } else if (data[off] as u32) & 0x1F == 0x1F {
        if off + 1 >= data.len() {
            None
        } else {
            Some(((((data[off] as u32) << 8u32) | data[off + 1] as u32) as u32, off + 2))
        }
    } else {
        Some((data[off] as u32, off + 1))
    }
}

/// The length field starting at `pos`: the value length and the offset of the value.
pub open spec fn length_at(data: Seq<u8>, pos: int) -> Option<(nat, int)> {
    if pos < 0 || pos >= data.len() {
        None
    } else if data[pos] & 0x80 != 0 {
        let n = (data[pos] & 0x7F) as int;
        if n == 0 || n > 4 || pos + 1 + n > data.len() {
            None
        } else {
            Some((be_value(data.subrange(pos + 1, pos + 1 + n)), pos + 1 + n))
        }
    } else {
        Some((data[pos] as nat, pos + 1))
    }
}

/// Position of one TLV element inside a buffer.
pub struct TlvSpan {
    pub tag: u32,
    /// Offset of the first value byte.
    pub start: int,
    /// Length of the value.
    pub len: nat,
    /// Length of tag and length fields together.
    pub hdr: nat,
}

/// The TLV element that starts at `off`, if a complete one does.
pub open spec fn tlv_at(data: Seq<u8>, off: int) -> Option<TlvSpan> {
    match tag_at(data, off) {
        None => None,
        Some((tag, p)) => match length_at(data, p) {
            None => None,
            Some((len, q)) => if q + len > data.len() {
                None
            } else {
                Some(TlvSpan { tag, start: q, len, hdr: (q - off) as nat })
            },
        },
    }
}

/// Offset just past an element.
pub open spec fn tlv_end(s: TlvSpan) -> int {
    s.start + s.len
}

/// Value bytes of an element of `data`.
pub open spec fn tlv_val(data: Seq<u8>, s: TlvSpan) -> Seq<u8> {
    data.subrange(s.start, s.start + s.len)
}

/// An element lies after its own offset and inside the buffer.
pub proof fn lemma_tlv_bounds(data: Seq<u8>, off: int)
    ensures
        tlv_at(data, off) matches Some(s) ==> 0 <= off < s.start <= tlv_end(s) <= data.len() && s.hdr == s.start - off,
{
}

/// A decoded TLV element. `val` is the value; `val_off` is where it starts in
/// the buffer that was decoded.
#[derive(Clone, Copy)]
pub struct DerTlv<'a> {
    pub tag: u32,
    pub hdr_len: usize,
    pub val: &'a [u8],
    pub val_off: usize,
}

impl<'a> DerTlv<'a> {
    /// This element decoded from `data` at `off`.
    pub open spec fn decoded_from(&self, data: Seq<u8>, off: int) -> bool {
        match tlv_at(data, off) {
            None => false,
            Some(s) => {
                &&& self.tag == s.tag
                &&& self.hdr_len == s.hdr
                &&& self.val_off == s.start
                &&& self.val@ == data.subrange(s.start, s.start + s.len)
            },
        }
    }

    /// The whole element (header and value) inside `base`, the buffer it was
    /// decoded from.
    pub fn full_slice(&self, base: &'a [u8]) -> (r: &'a [u8])
        requires
            self.hdr_len <= self.val_off,
            self.val_off + self.val@.len() <= base@.len(),
        ensures
            r@ == base@.subrange(
                self.val_off - self.hdr_len,
                self.val_off + self.val@.len(),
            ),
    {
        let _blen = base.len();
        let start = self.val_off - self.hdr_len;
        vstd::slice::slice_subrange(base, start, self.val_off + self.val.len())
    }
}

/// 256 to the power `n`.
pub open spec fn byte_range(n: nat) -> nat
    decreases n,
{
    if n == 0 {
        1
    } else {
        256 * byte_range((n - 1) as nat)
    }
}

pub proof fn lemma_be_value_bound(s: Seq<u8>)
    ensures
        be_value(s) < byte_range(s.len()),
    decreases s.len(),
{
    if s.len() > 0 {
        lemma_be_value_bound(s.drop_last());
        let p = byte_range((s.len() - 1) as nat);
        assert(be_value(s.drop_last()) * 256 + 256 <= p * 256) by (nonlinear_arith)
            requires
                be_value(s.drop_last()) < p,
        ;
    }
}

pub proof fn lemma_byte_range_mono(a: nat, b: nat)
    requires
        a <= b,
    ensures
        byte_range(a) <= byte_range(b),
    decreases b,
{
    if a < b {
        lemma_byte_range_mono(a, (b - 1) as nat);
    }
}

/// Decode the TLV element starting at `off`; returns it with the offset just
/// past it.
pub fn next<'a>(data: &'a [u8], off: usize) -> (r: Result<(DerTlv<'a>, usize), ()>)
    ensures
        match r {
            Ok((t, n)) => t.decoded_from(data@, off as int) && n == t.val_off + t.val@.len()
                && off < n <= data@.len() && t.hdr_len <= t.val_off,
            Err(_) => tlv_at(data@, off as int) is None,
        },
{
    if off >= data.len() {
        return Err(());
    }
    assert(data@.len() <= usize::MAX);
    let mut pos = off;
    let mut tag = data[pos] as u32;
    pos += 1;
    if (tag & 0x1F) == 0x1F {
        if pos >= data.len() {
            return Err(());
        }
        tag = (tag << 8) | data[pos] as u32;
        pos += 1;
    }
    if pos >= data.len() {
        return Err(());
    }
    let first = data[pos];
    let len: usize;
    if first & 0x80 != 0 {
        let n = (first & 0x7F) as usize;
        pos += 1;
        if n == 0 || n > 4 || n > data.len() - pos {
            return Err(());
        }
        let mut l: usize = 0;
        let mut i: usize = 0;
        while i < n
            invariant
                0 <= i <= n <= 4,
                pos + n <= data@.len(),
                data@.len() <= usize::MAX,
                l == be_value(data@.subrange(pos as int, pos + i)),
            decreases n - i,
        {
            proof {
                let s = data@.subrange(pos as int, pos + i + 1);
                assert(s.drop_last() =~= data@.subrange(pos as int, pos + i));
                lemma_be_value_bound(s);
                lemma_byte_range_mono((i + 1) as nat, 4);
                reveal_with_fuel(byte_range, 5);
            }
            l = l * 256 + data[pos + i] as usize;
            i += 1;
        }
        pos += n;
        len = l;
    } else {
        len = first as usize;
        pos += 1;
    }
    if len > data.len() - pos {
        return Err(());
    }
    let val = vstd::slice::slice_subrange(data, pos, pos + len);
    Ok((DerTlv { tag, hdr_len: pos - off, val, val_off: pos }, pos + len))
}

/// Content bytes of a primitive value: a BIT STRING loses its unused-bits
/// byte, anything else is returned as is.
pub fn get_bytes<'a>(t: &DerTlv<'a>) -> (r: Result<&'a [u8], ()>)
    ensures
        t.tag == 0x03 && t.val@.len() == 0 ==> r is Err,
        t.tag == 0x03 && t.val@.len() > 0 ==> (r matches Ok(b) && b@ == t.val@.drop_first()),
        t.tag != 0x03 ==> (r matches Ok(b) && b@ == t.val@),
{
    if t.tag == 0x03 {
        if t.val.len() == 0 {
            return Err(());
        }
        Ok(vstd::slice::slice_subrange(t.val, 1, t.val.len()))
    } else {
        Ok(t.val)
    }
}

/// Contents of a constructed element; primitive elements are refused.
pub fn enter<'a>(t: &DerTlv<'a>) -> (r: Result<&'a [u8], ()>)
    ensures
        t.tag & 0x20 == 0 ==> r is Err,
        t.tag & 0x20 != 0 ==> (r matches Ok(b) && b@ == t.val@),
{
    if t.tag & 0x20 == 0 {
        return Err(());
    }
    Ok(t.val)
}

} // verus!
