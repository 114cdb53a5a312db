//! Text of labels read from the card: bytes up to the last byte that is
//! neither `00` nor `FF`, decoded as UTF-8 (invalid sequences replaced),
//! control characters removed, trailing white space trimmed.

use vstd::prelude::*;
use vstd::utf8::{decode_utf8, valid_utf8};

verus! {

/// The text `String::from_utf8_lossy` makes of `bytes`.
pub uninterp spec fn utf8_lossy_value(bytes: Seq<u8>) -> Seq<char>;

/// Bytes below `0x80` (ASCII).
pub open spec fn is_ascii_bytes(bytes: Seq<u8>) -> bool {
    forall|i: int| 0 <= i < bytes.len() ==> bytes[i] < 0x80
}

/// ASCII bytes read as characters.
pub open spec fn ascii_chars(bytes: Seq<u8>) -> Seq<char> {
    Seq::new(bytes.len(), |i: int| bytes[i] as char)
}

/// Calls `String::from_utf8_lossy` and takes the result as an owned
/// `String`. Its text is named; ASCII bytes (valid UTF-8) decode to
/// themselves, as the documentation says of valid input.
#[verifier::external_body]
pub(crate) fn utf8_lossy(bytes: &[u8]) -> (r: String)
    ensures
        r@ == utf8_lossy_value(bytes@),
        is_ascii_bytes(bytes@) ==> r@ == ascii_chars(bytes@),
{
    String::from_utf8_lossy(bytes).into_owned()
}

/// Calls `String::from_iter` on the characters of `chars`: the string of
/// exactly those characters.
#[verifier::external_body]
pub(crate) fn string_from_chars(chars: &[char]) -> (r: String)
    ensures
        r@ == chars@,
{
    String::from_iter(chars.iter())
}

/// Calls `std::str::from_utf8` and takes the text as an owned `String`:
/// as its documentation says, it succeeds exactly on valid UTF-8, giving
/// the characters the bytes encode.
#[verifier::external_body]
pub(crate) fn utf8_text(bytes: &[u8]) -> (r: Option<String>)
    ensures
        r is Some <==> valid_utf8(bytes@),
        r matches Some(s) ==> s@ == decode_utf8(bytes@),
{
    match std::str::from_utf8(bytes) {
        Ok(s) => Some(s.to_owned()),
        Err(_) => None,
    }
}

/// `char::is_control`: general category Cc, `U+0000..U+001F` and `U+007F..U+009F`.
pub open spec fn is_control(c: char) -> bool {
    (c as u32) <= 0x1F || (0x7F <= (c as u32) && (c as u32) <= 0x9F)
}

/// `char::is_whitespace`: the Unicode `White_Space` property.
pub open spec fn is_white_space(c: char) -> bool {
    let u = c as u32;
    (0x09 <= u && u <= 0x0D) || u == 0x20 || u == 0x85 || u == 0xA0 || u == 0x1680 || (0x2000 <= u && u <= 0x200A)
        || u == 0x2028 || u == 0x2029 || u == 0x202F || u == 0x205F || u == 0x3000
}

fn char_is_control(c: char) -> (b: bool)
    ensures
        b == is_control(c),
{
    let u = c as u32;
    u <= 0x1F || (0x7F <= u && u <= 0x9F)
}

fn char_is_white_space(c: char) -> (b: bool)
    ensures
        b == is_white_space(c),
{
    let u = c as u32;
    (0x09 <= u && u <= 0x0D) || u == 0x20 || u == 0x85 || u == 0xA0 || u == 0x1680 || (0x2000 <= u && u <= 0x200A)
        || u == 0x2028 || u == 0x2029 || u == 0x202F || u == 0x205F || u == 0x3000
}

/// `s` without its control characters.
pub open spec fn without_controls(s: Seq<char>) -> Seq<char>
    decreases s.len(),
{
    if s.len() == 0 {
        s
    } else if is_control(s.last()) {
        without_controls(s.drop_last())
    } else {
        without_controls(s.drop_last()).push(s.last())
    }
}

/// `s` without trailing white space.
pub open spec fn trim_end_ws(s: Seq<char>) -> Seq<char>
    decreases s.len(),
{
    if s.len() > 0 && is_white_space(s.last()) {
        trim_end_ws(s.drop_last())
    } else {
        s
    }
}

/// Length of `raw` up to and including its last byte that is neither `00` nor `FF`.
pub open spec fn label_end(raw: Seq<u8>) -> nat
    decreases raw.len(),
{
    if raw.len() == 0 {
        0
    } else if raw.last() != 0 && raw.last() != 0xFF {
        raw.len()
    } else {
        label_end(raw.drop_last())
    }
}

/// The label text of `raw`.
pub open spec fn label_text(raw: Seq<u8>) -> Seq<char> {
    trim_end_ws(without_controls(utf8_lossy_value(raw.take(label_end(raw) as int))))
}

proof fn lemma_label_end_bound(raw: Seq<u8>)
    ensures
        label_end(raw) <= raw.len(),
    decreases raw.len(),
{
    if raw.len() > 0 {
        lemma_label_end_bound(raw.drop_last());
    }
}

/// Label text of raw card bytes: trailing `00`/`FF` padding cut, decoded
/// as UTF-8 with invalid sequences replaced, control characters removed,
/// trailing white space trimmed.
pub fn copy_label(raw: &[u8]) -> (r: String)
    ensures
        r@ == label_text(raw@),
{
    let mut end = raw.len();
    assert(raw@.take(end as int) =~= raw@);
    while end > 0 && (raw[end - 1] == 0 || raw[end - 1] == 0xFF)
        invariant
            end <= raw@.len(),
            label_end(raw@) == label_end(raw@.take(end as int)),
        decreases end,
    {
        assert(raw@.take(end as int).drop_last() =~= raw@.take(end - 1));
        end -= 1;
    }
    proof {
        if end > 0 {
            assert(label_end(raw@.take(end as int)) == end);
        } else {
            assert(raw@.take(0) =~= Seq::<u8>::empty());
        }
    }
    let text = utf8_lossy(vstd::slice::slice_subrange(raw, 0, end));
    let s = text.as_str();
    let n = s.unicode_len();
    let mut kept: Vec<char> = Vec::new();
    let mut i: usize = 0;
    while i < n
        invariant
            i <= n,
            n == s@.len(),
            kept@ == without_controls(s@.take(i as int)),
        decreases n - i,
    {
        let c = s.get_char(i);
        assert(s@.take(i + 1).drop_last() =~= s@.take(i as int));
        if !char_is_control(c) {
            kept.push(c);
        }
        i += 1;
    }
    assert(s@.take(n as int) =~= s@);
    let mut len = kept.len();
    assert(kept@.take(len as int) =~= kept@);
    while len > 0 && char_is_white_space(kept[len - 1])
        invariant
            len <= kept@.len(),
            trim_end_ws(kept@) == trim_end_ws(kept@.take(len as int)),
        decreases len,
    {
        assert(kept@.take(len as int).drop_last() =~= kept@.take(len - 1));
        len -= 1;
    }
    assert(trim_end_ws(kept@.take(len as int)) == kept@.take(len as int));
    string_from_chars(vstd::slice::slice_subrange(kept.as_slice(), 0, len))
}

} // verus!
