//! Byte-string helpers shared by the padding and secure-messaging code.

use vstd::prelude::*;

verus! {

/// Byte-wise exclusive or, as long as the shorter argument.
pub open spec fn xor_bytes(a: Seq<u8>, b: Seq<u8>) -> Seq<u8> {
    Seq::new(if a.len() <= b.len() { a.len() } else { b.len() }, |i: int| a[i] ^ b[i])
}

/// Exclusive or does not depend on the order of its operands.
pub proof fn lemma_xor_commutes(a: Seq<u8>, b: Seq<u8>)
    ensures
        xor_bytes(a, b) == xor_bytes(b, a),
{
    assert forall|i: int| 0 <= i < xor_bytes(a, b).len() implies #[trigger] xor_bytes(a, b)[i] == xor_bytes(b, a)[i] by {
        let x = a[i];
        let y = b[i];
        assert(x ^ y == y ^ x) by (bit_vector);
    }
    assert(xor_bytes(a, b) =~= xor_bytes(b, a));
}

/// `prefix` followed by `tail`.
pub fn with_prefix(prefix: Vec<u8>, tail: &[u8]) -> (out: Vec<u8>)
    ensures
        out@ == prefix@ + tail@,
{
    let mut out = prefix;
    let mut i: usize = 0;
    let ghost start = out@;
    while i < tail.len()
        invariant
            i <= tail@.len(),
            out@ == start + tail@.subrange(0, i as int),
        decreases tail@.len() - i,
    {
        out.push(tail[i]);
        i += 1;
        assert(out@ =~= start + tail@.subrange(0, i as int));
    }
    assert(tail@.subrange(0, tail@.len() as int) =~= tail@);
    out
}

/// Copy of a byte slice.
pub fn bytes_to_vec(s: &[u8]) -> (out: Vec<u8>)
    ensures
        out@ == s@,
{
    let out = with_prefix(Vec::new(), s);
    assert(out@ =~= s@);
    out
}

/// Byte-wise exclusive or of two buffers, as long as the shorter one.
pub fn xor_vec(a: &[u8], b: &[u8]) -> (out: Vec<u8>)
    ensures
        out@ == xor_bytes(a@, b@),
{
    let n = if a.len() <= b.len() { a.len() } else { b.len() };
    let mut out: Vec<u8> = Vec::new();
    let mut i: usize = 0;
    while i < n
        invariant
            n <= a@.len(),
            n <= b@.len(),
            n == (if a@.len() <= b@.len() { a@.len() } else { b@.len() }),
            i <= n,
            out@.len() == i,
            forall|j: int| 0 <= j < i ==> out@[j] == a@[j] ^ b@[j],
        decreases n - i,
    {
        out.push(a[i] ^ b[i]);
        i += 1;
    }
    assert(out@ =~= xor_bytes(a@, b@));
    out
}

/// Whether two byte strings are equal.
pub fn bytes_eq(a: &[u8], b: &[u8]) -> (r: bool)
    ensures
        r == (a@ == b@),
{
    if a.len() != b.len() {
        return false;
    }
    let mut i: usize = 0;
    while i < a.len()
        invariant
            a@.len() == b@.len(),
            i <= a@.len(),
            forall|j: int| 0 <= j < i ==> a@[j] == b@[j],
        decreases a@.len() - i,
    {
        if a[i] != b[i] {
            return false;
        }
        i += 1;
    }
    assert(a@ =~= b@);
    true
}

} // verus!

verus! {

/// Bytes `a..b` of `s` as a new vector.
pub fn sub_vec(s: &[u8], a: usize, b: usize) -> (out: Vec<u8>)
    requires
        a <= b <= s@.len(),
    ensures
        out@ == s@.subrange(a as int, b as int),
{
    bytes_to_vec(vstd::slice::slice_subrange(s, a, b))
}

/// ISO/IEC 7816-4 padding to a multiple of 16 bytes: `80` then zeros.
pub open spec fn iso_pad16(data: Seq<u8>) -> Seq<u8> {
    data + seq![0x80u8] + Seq::new(((16 - (data.len() + 1) % 16) % 16) as nat, |i: int| 0u8)
}

/// `data` padded with `80` and zeros to a multiple of 16 bytes.
pub fn pad80(data: &[u8]) -> (out: Vec<u8>)
    ensures
        out@ == iso_pad16(data@),
        out@.len() % 16 == 0,
{
    let mut out = bytes_to_vec(data);
    out.push(0x80);
    let ghost base = out@;
    while out.len() % 16 != 0
        invariant
            base == data@ + seq![0x80u8],
            base.len() <= out@.len() <= base.len() + 15,
            out@ == base + Seq::new((out@.len() - base.len()) as nat, |i: int| 0u8),
            (out@.len() - base.len()) as int <= (16 - base.len() % 16) % 16,
        decreases base.len() + 16 - out@.len(),
    {
        out.push(0x00);
        assert(out@ =~= base + Seq::new((out@.len() - base.len()) as nat, |i: int| 0u8));
    }
    assert(out@ =~= iso_pad16(data@));
    out
}

} // verus!
