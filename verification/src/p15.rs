//! HiCOS card binding: token information and PKCS#15 object discovery.
//!
//! HiCOS does not expose a standard PKCS#15 application: `5015` and the usual
//! ODF/PrKDF file IDs answer `6A82`. The directory files live in a
//! proprietary DF under the MF and are numbered after the ODF context tags
//! (PrKDF = `[0]` → `4100`, PuKDF = `[1]` → `4101`, CDF = `[4]` → `4104`, …).

use crate::der::{
    be_value, byte_range, enter, get_bytes, lemma_be_value_bound, lemma_byte_range_mono, lemma_tlv_bounds, next,
    tlv_at, tlv_end, tlv_val, DerTlv, TlvSpan,
};
use crate::apdu::{
    flow_matches, flow_within, path_fid, read_binary, read_ef, read_record, read_binary_range, select_fid, select_mf,
    select_path, spec_read_binary, spec_read_ef_from, spec_read_range_from, spec_read_record, spec_select_fid,
    spec_select_mf, spec_select_path, then, CardState, Flow, Response, SFlow, CHUNK,
};
use crate::text::{copy_label, label_text};
use vstd::prelude::*;

verus! {

/// Most objects a token holds.
pub const MAX_OBJS: usize = 32;

/// Longest file path of an object.
pub const MAX_PATH: usize = 32;

/// The proprietary HiCOS DF under the MF.
pub const FID_HICOS_DF: u16 = 0x5030;
pub const FID_PRKDF: u16 = 0x4100;
pub const FID_PUKDF: u16 = 0x4101;
pub const FID_CDF: u16 = 0x4104;
pub const FID_DODF: u16 = 0x4107;
pub const FID_AODF: u16 = 0x4108;

/// Public key EFs hold one 128-byte component per record, prefixed by the
/// record number.
pub const PUBKEY_RECORD_LEN: usize = 129;
pub const PUBKEY_COMPONENT_LEN: usize = 128;
/// Offset from a key reference to the first record holding modulus bytes.
pub const PUBKEY_MODULUS_RECORD: u8 = 2;

// PKCS#15 keyUsageFlags bits.
pub const USAGE_ENCRYPT: u32 = 1;
pub const USAGE_DECRYPT: u32 = 2;
pub const USAGE_SIGN: u32 = 4;
pub const USAGE_SIGN_RECOVER: u32 = 8;
pub const USAGE_WRAP: u32 = 16;
pub const USAGE_UNWRAP: u32 = 32;
pub const USAGE_VERIFY: u32 = 64;
pub const USAGE_VERIFY_RECOVER: u32 = 128;

// PKCS#15 commonObjectFlags bits.
pub const OBJ_PRIVATE: u32 = 1;
pub const OBJ_MODIFIABLE: u32 = 2;

/// Object class on the token.
#[derive(Clone, Copy, PartialEq, Eq, Structural, Debug)]
pub enum ObjClass {
    PrivKey,
    PubKey,
    Cert,
    Data,
}

/// One object of the token and its attributes.
pub struct TokenObject {
    pub handle: u64,
    pub cls: ObjClass,
    pub label: String,
    pub id: Vec<u8>,
    pub key_ref: i32,
    pub private: bool,
    pub modifiable: bool,
    pub local: bool,
    pub can_sign: bool,
    pub can_decrypt: bool,
    pub can_verify: bool,
    pub can_encrypt: bool,
    pub can_wrap: bool,
    pub can_unwrap: bool,
    pub data: Vec<u8>,
    pub subject: Vec<u8>,
    pub issuer: Vec<u8>,
    pub serial: Vec<u8>,
    pub application: String,
    pub app_oid: Vec<u8>,
    pub modulus: Vec<u8>,
    pub pubexp: Vec<u8>,
    pub modulus_bits: u64,
}

/// What an object holds.
#[verifier::ext_equal]
pub struct ObjModel {
    pub handle: u64,
    pub cls: ObjClass,
    pub label: Seq<char>,
    pub id: Seq<u8>,
    pub key_ref: i32,
    pub private: bool,
    pub modifiable: bool,
    pub local: bool,
    pub can_sign: bool,
    pub can_decrypt: bool,
    pub can_verify: bool,
    pub can_encrypt: bool,
    pub can_wrap: bool,
    pub can_unwrap: bool,
    pub data: Seq<u8>,
    pub subject: Seq<u8>,
    pub issuer: Seq<u8>,
    pub serial: Seq<u8>,
    pub application: Seq<char>,
    pub app_oid: Seq<u8>,
    pub modulus: Seq<u8>,
    pub pubexp: Seq<u8>,
    pub modulus_bits: u64,
}

impl View for TokenObject {
    type V = ObjModel;

    open spec fn view(&self) -> ObjModel {
        ObjModel {
            handle: self.handle,
            cls: self.cls,
            label: self.label@,
            id: self.id@,
            key_ref: self.key_ref,
            private: self.private,
            modifiable: self.modifiable,
            local: self.local,
            can_sign: self.can_sign,
            can_decrypt: self.can_decrypt,
            can_verify: self.can_verify,
            can_encrypt: self.can_encrypt,
            can_wrap: self.can_wrap,
            can_unwrap: self.can_unwrap,
            data: self.data@,
            subject: self.subject@,
            issuer: self.issuer@,
            serial: self.serial@,
            application: self.application@,
            app_oid: self.app_oid@,
            modulus: self.modulus@,
            pubexp: self.pubexp@,
            modulus_bits: self.modulus_bits,
        }
    }
}

/// A fresh object: a certificate with nothing set, key reference -1.
pub open spec fn is_blank_object(o: TokenObject) -> bool {
    &&& o.handle == 0
    &&& o.cls == ObjClass::Cert
    &&& o.label@ == Seq::<char>::empty()
    &&& o.id@ == Seq::<u8>::empty()
    &&& o.key_ref == -1
    &&& !o.private && !o.modifiable && !o.local
    &&& !o.can_sign && !o.can_decrypt && !o.can_verify && !o.can_encrypt && !o.can_wrap && !o.can_unwrap
    &&& o.data@ == Seq::<u8>::empty()
    &&& o.subject@ == Seq::<u8>::empty()
    &&& o.issuer@ == Seq::<u8>::empty()
    &&& o.serial@ == Seq::<u8>::empty()
    &&& o.application@ == Seq::<char>::empty()
    &&& o.app_oid@ == Seq::<u8>::empty()
    &&& o.modulus@ == Seq::<u8>::empty()
    &&& o.pubexp@ == Seq::<u8>::empty()
    &&& o.modulus_bits == 0
}

impl Default for TokenObject {
    fn default() -> (r: Self)
        ensures
            is_blank_object(r),
    {
        TokenObject {
            handle: 0,
            cls: ObjClass::Cert,
            label: String::new(),
            id: Vec::new(),
            key_ref: -1,
            private: false,
            modifiable: false,
            local: false,
            can_sign: false,
            can_decrypt: false,
            can_verify: false,
            can_encrypt: false,
            can_wrap: false,
            can_unwrap: false,
            data: Vec::new(),
            subject: Vec::new(),
            issuer: Vec::new(),
            serial: Vec::new(),
            application: String::new(),
            app_oid: Vec::new(),
            modulus: Vec::new(),
            pubexp: Vec::new(),
            modulus_bits: 0,
        }
    }
}

/// Token information and objects of a bound card.
pub struct Token {
    pub bound: bool,
    pub label: String,
    pub manufacturer: String,
    pub model: String,
    pub serial: String,
    pub min_pin: u64,
    pub max_pin: u64,
    pub pin_ref: u8,
    pub objs: Vec<TokenObject>,
}

/// What a token holds.
#[verifier::ext_equal]
pub struct TokenModel {
    pub bound: bool,
    pub label: Seq<char>,
    pub manufacturer: Seq<char>,
    pub model: Seq<char>,
    pub serial: Seq<char>,
    pub min_pin: u64,
    pub max_pin: u64,
    pub pin_ref: u8,
    pub objs: Seq<ObjModel>,
}

/// The models of a sequence of objects.
pub open spec fn obj_models(objs: Seq<TokenObject>) -> Seq<ObjModel> {
    Seq::new(objs.len(), |i: int| objs[i]@)
}

impl View for Token {
    type V = TokenModel;

    open spec fn view(&self) -> TokenModel {
        TokenModel {
            bound: self.bound,
            label: self.label@,
            manufacturer: self.manufacturer@,
            model: self.model@,
            serial: self.serial@,
            min_pin: self.min_pin,
            max_pin: self.max_pin,
            pin_ref: self.pin_ref,
            objs: obj_models(self.objs@),
        }
    }
}

/// Label of a card whose token information says nothing else.
pub open spec fn default_label() -> Seq<char> {
    seq!['H', 'i', 'C', 'O', 'S', ' ', 'P', 'K', 'I', ' ', 'S', 'm', 'a', 'r', 't', ' ', 'C', 'a', 'r', 'd']
}

/// Manufacturer named when the token information names none.
pub open spec fn default_manufacturer() -> Seq<char> {
    seq![
        'C', 'h', 'u', 'n', 'g', 'h', 'w', 'a', ' ', 'T', 'e', 'l', 'e', 'C', 'o', 'm', ' ', 'C', 'o', '.', ',', ' ',
        'L', 't', 'd', '.'
    ]
}

/// The unbound token: default texts, PIN length 6 to 8, PIN reference 0, no objects.
pub open spec fn is_default_token(t: Token) -> bool {
    &&& !t.bound
    &&& t.label@ == default_label()
    &&& t.manufacturer@ == default_manufacturer()
    &&& t.model@ == seq!['H', 'i', 'C', 'O', 'S']
    &&& t.serial@ == Seq::new(16, |i: int| '0')
    &&& t.min_pin == 6
    &&& t.max_pin == 8
    &&& t.pin_ref == 0
    &&& t.objs@.len() == 0
}

/// The default label as a `String`.
pub fn default_label_string() -> (s: String)
    ensures
        s@ == default_label(),
{
    let lit = "HiCOS PKI Smart Card";
    proof {
        reveal_strlit("HiCOS PKI Smart Card");
    }
    let s = lit.to_owned();
    assert(s@ =~= default_label());
    s
}

/// The default manufacturer as a `String`.
pub fn default_manufacturer_string() -> (s: String)
    ensures
        s@ == default_manufacturer(),
{
    let lit = "Chunghwa TeleCom Co., Ltd.";
    proof {
        reveal_strlit("Chunghwa TeleCom Co., Ltd.");
    }
    let s = lit.to_owned();
    assert(s@ =~= default_manufacturer());
    s
}

impl Default for Token {
    fn default() -> (r: Self)
        ensures
            is_default_token(r),
    {
        let model = "HiCOS";
        let serial = "0000000000000000";
        proof {
            reveal_strlit("HiCOS");
            reveal_strlit("0000000000000000");
        }
        let t = Token {
            bound: false,
            label: default_label_string(),
            manufacturer: default_manufacturer_string(),
            model: model.to_owned(),
            serial: serial.to_owned(),
            min_pin: 6,
            max_pin: 8,
            pin_ref: 0x00,
            objs: Vec::new(),
        };
        assert(t.model@ =~= seq!['H', 'i', 'C', 'O', 'S']);
        assert(t.serial@ =~= Seq::new(16, |i: int| '0'));
        t
    }
}

/// A PKCS#15 `Path`: file path plus an optional slice of that file.
pub struct PathSpec {
    pub bytes: Vec<u8>,
    pub index: u32,
    pub length: usize,
}

/// `s` without trailing `FF` and `00` bytes.
pub open spec fn strip_padding(s: Seq<u8>) -> Seq<u8>
    decreases s.len(),
{
    if s.len() > 0 && (s.last() == 0xFF || s.last() == 0x00) {
        strip_padding(s.drop_last())
    } else {
        s
    }
}

/// Drop trailing `FF` and `00` padding.
pub fn trim_padding(buf: &mut Vec<u8>)
    ensures
        final(buf)@ == strip_padding(old(buf)@),
{
    while buf.len() > 0 && (buf[buf.len() - 1] == 0xFF || buf[buf.len() - 1] == 0x00)
        invariant
            strip_padding(old(buf)@) == strip_padding(buf@),
        decreases buf@.len(),
    {
        buf.pop();
    }
}

/// `s` without leading zero bytes.
pub open spec fn strip_leading_zeros(s: Seq<u8>) -> Seq<u8>
    decreases s.len(),
{
    if s.len() > 0 && s[0] == 0 {
        strip_leading_zeros(s.drop_first())
    } else {
        s
    }
}

/// Copy of `v` without its leading zero bytes.
pub fn trim_leading_zeros(v: &[u8]) -> (r: Vec<u8>)
    ensures
        r@ == strip_leading_zeros(v@),
{
    let mut start: usize = 0;
    assert(v@.skip(0) =~= v@);
    while start < v.len() && v[start] == 0
        invariant
            start <= v@.len(),
            strip_leading_zeros(v@) == strip_leading_zeros(v@.skip(start as int)),
        decreases v@.len() - start,
    {
        assert(v@.skip(start as int).drop_first() =~= v@.skip(start + 1));
        start += 1;
    }
    assert(v@.subrange(start as int, v@.len() as int) =~= v@.skip(start as int));
    crate::bytes::sub_vec(v, start, v.len())
}

/// Big-endian value of the first (at most) eight bytes.
pub open spec fn be_uint_value(v: Seq<u8>) -> nat {
    be_value(v.take(if v.len() < 8 { v.len() as int } else { 8 }))
}

/// Big-endian unsigned value of the first eight bytes of `v`.
pub fn be_uint(v: &[u8]) -> (r: u64)
    ensures
        r as nat == be_uint_value(v@),
{
    let n: usize = if v.len() < 8 { v.len() } else { 8 };
    let mut acc: u64 = 0;
    let mut i: usize = 0;
    while i < n
        invariant
            n <= 8,
            n <= v@.len(),
            i <= n,
            acc as nat == be_value(v@.take(i as int)),
        decreases n - i,
    {
        proof {
            let s = v@.take(i + 1);
            assert(s.drop_last() =~= v@.take(i as int));
            lemma_be_value_bound(s);
            lemma_byte_range_mono((i + 1) as nat, 8);
            reveal_with_fuel(byte_range, 9);
        }
        acc = acc * 256 + v[i] as u64;
        i += 1;
    }
    acc
}

/// A byte with its bit order reversed (ASN.1 numbers bits from the most
/// significant one).
pub open spec fn rev8(b: u8) -> u32 {
    (((b as u32) & 0x80) >> 7u32) | (((b as u32) & 0x40) >> 5u32) | (((b as u32) & 0x20) >> 3u32)
        | (((b as u32) & 0x10) >> 1u32) | (((b as u32) & 0x08) << 1u32) | (((b as u32) & 0x04) << 3u32)
        | (((b as u32) & 0x02) << 5u32) | (((b as u32) & 0x01) << 7u32)
}

/// Byte `i` of `s`, zero beyond its end.
pub open spec fn byte_or_zero(s: Seq<u8>, i: int) -> u8 {
    if 0 <= i < s.len() { s[i] } else { 0 }
}

/// A DER BIT STRING value (unused-bits byte first) as a mask whose bit `n`
/// is ASN.1 bit `n`, for the first 32 bits.
pub open spec fn bitstring_value(val: Seq<u8>) -> u32 {
    rev8(byte_or_zero(val, 1)) | (rev8(byte_or_zero(val, 2)) << 8u32) | (rev8(byte_or_zero(val, 3)) << 16u32)
        | (rev8(byte_or_zero(val, 4)) << 24u32)
}

fn rev8_exec(b: u8) -> (r: u32)
    ensures
        r == rev8(b),
{
    let x = b as u32;
    ((x & 0x80) >> 7) | ((x & 0x40) >> 5) | ((x & 0x20) >> 3) | ((x & 0x10) >> 1) | ((x & 0x08) << 1) | ((x & 0x04) << 3)
        | ((x & 0x02) << 5) | ((x & 0x01) << 7)
}

/// Expand a BIT STRING into a mask where bit `n` is ASN.1 bit `n`.
pub fn bitstring_bits(t: &DerTlv) -> (bits: u32)
    ensures
        bits == bitstring_value(t.val@),
{
    let v = t.val;
    let b1 = if v.len() > 1 { v[1] } else { 0 };
    let b2 = if v.len() > 2 { v[2] } else { 0 };
    let b3 = if v.len() > 3 { v[3] } else { 0 };
    let b4 = if v.len() > 4 { v[4] } else { 0 };
    rev8_exec(b1) | (rev8_exec(b2) << 8) | (rev8_exec(b3) << 16) | (rev8_exec(b4) << 24)
}

/// The offset where the record sequence from `off` ends on padding (`00` or
/// `FF`), or `None` when it runs out or is cut mid-record.
pub open spec fn records_end_from(buf: Seq<u8>, off: int) -> Option<int>
    decreases buf.len() - off,
{
    if off < 0 || off >= buf.len() {
        None
    } else if buf[off] == 0x00 || buf[off] == 0xFF {
        Some(off)
    } else {
        match tlv_at(buf, off) {
            None => None,
            Some(s) => {
                proof { lemma_tlv_bounds(buf, off); }
                records_end_from(buf, tlv_end(s))
            },
        }
    }
}

/// Offset at which the record sequence ends, or `None` if `buf` is
/// truncated mid-record and more data is needed.
pub fn records_end(buf: &[u8]) -> (r: Option<usize>)
    ensures
        match records_end_from(buf@, 0) {
            Some(e) => r matches Some(x) && x as int == e,
            None => r is None,
        },
{
    let mut off: usize = 0;
    while off < buf.len()
        invariant
            off <= buf@.len(),
            records_end_from(buf@, 0) == records_end_from(buf@, off as int),
        decreases buf@.len() - off,
    {
        if buf[off] == 0x00 || buf[off] == 0xFF {
            return Some(off);
        }
        match next(buf, off) {
            Ok((_, n)) => {
                off = n;
            },
            Err(_) => return None,
        }
    }
    None
}

/// Number of significant bits of a byte.
pub open spec fn bit_length(b: u8) -> nat {
    if b >= 128 { 8 } else if b >= 64 { 7 } else if b >= 32 { 6 } else if b >= 16 { 5 } else if b >= 8 { 4 } else if b >= 4 {
        3
    } else if b >= 2 { 2 } else if b >= 1 { 1 } else { 0 }
}

/// Bit length of a big-endian unsigned integer.
pub open spec fn modulus_bits_value(m: Seq<u8>) -> nat {
    let t = strip_leading_zeros(m);
    if t.len() == 0 { 0 } else { 8 * (t.len() - 1) as nat + bit_length(t[0]) }
}

proof fn lemma_strip_leading_zeros(s: Seq<u8>)
    ensures
        strip_leading_zeros(s).len() <= s.len(),
        strip_leading_zeros(s).len() > 0 ==> strip_leading_zeros(s)[0] != 0,
    decreases s.len(),
{
    if s.len() > 0 && s[0] == 0 {
        lemma_strip_leading_zeros(s.drop_first());
    }
}

/// Bit length of the big-endian modulus `m`.
pub fn modulus_bit_len(m: &[u8]) -> (bits: u64)
    ensures
        bits == modulus_bits_value(m@) as u64,
{
    let t = trim_leading_zeros(m);
    proof {
        lemma_strip_leading_zeros(m@);
    }
    if t.len() == 0 {
        return 0;
    }
    let b = t[0];
    let top: u64 = if b >= 128 { 8 } else if b >= 64 { 7 } else if b >= 32 { 6 } else if b >= 16 { 5 } else if b >= 8 {
        4
    } else if b >= 4 { 3 } else if b >= 2 { 2 } else { 1 };
    let wide: u128 = 8 * (t.len() as u128 - 1) + top as u128;
    wide as u64
}

/// HiCOS stores key components as 32-bit words in reverse order: the last
/// word first, any bytes short of a word at the end.
pub open spec fn reverse_words_value(s: Seq<u8>) -> Seq<u8>
    decreases s.len(),
{
    if s.len() >= 4 {
        s.subrange(s.len() - 4, s.len() as int) + reverse_words_value(s.take(s.len() - 4))
    } else {
        s
    }
}

/// Reversing the word order keeps the length, and puts the `k`-th whole
/// word from the end at word place `k`; the bytes short of a word, at the
/// front of the input, come last.
pub proof fn lemma_reverse_words_places(s: Seq<u8>)
    ensures
        reverse_words_value(s).len() == s.len(),
        s.len() % 4 == 0 ==> forall|i: int| 0 <= i < s.len() ==>
            #[trigger] reverse_words_value(s)[i] == s[s.len() - 4 * (i / 4) - 4 + i % 4],
        forall|i: int| 0 <= i < s.len() - s.len() % 4 ==>
            #[trigger] reverse_words_value(s)[i] == s[s.len() - 4 * (i / 4) - 4 + i % 4],
        forall|i: int| s.len() - s.len() % 4 <= i < s.len() ==>
            #[trigger] reverse_words_value(s)[i] == s[i - (s.len() - s.len() % 4)],
    decreases s.len(),
{
    if s.len() >= 4 {
        let t = s.take(s.len() - 4);
        lemma_reverse_words_places(t);
        assert(t.len() % 4 == s.len() % 4);
        assert forall|i: int| 0 <= i < s.len() - s.len() % 4 implies
            #[trigger] reverse_words_value(s)[i] == s[s.len() - 4 * (i / 4) - 4 + i % 4] by {
            if i >= 4 {
                assert(reverse_words_value(s)[i] == reverse_words_value(t)[i - 4]);
                assert((i - 4) / 4 == i / 4 - 1);
                assert((i - 4) % 4 == i % 4);
            }
        }
        assert forall|i: int| s.len() - s.len() % 4 <= i < s.len() implies
            #[trigger] reverse_words_value(s)[i] == s[i - (s.len() - s.len() % 4)] by {
            assert(reverse_words_value(s)[i] == reverse_words_value(t)[i - 4]);
        }
    }
}

/// On whole words, reversing the word order twice gives back the input.
pub proof fn lemma_reverse_words_twice(s: Seq<u8>)
    requires
        s.len() % 4 == 0,
    ensures
        reverse_words_value(reverse_words_value(s)) == s,
{
    let r = reverse_words_value(s);
    lemma_reverse_words_places(s);
    lemma_reverse_words_places(r);
    assert forall|i: int| 0 <= i < s.len() implies #[trigger] reverse_words_value(r)[i] == s[i] by {
        let j = s.len() - 4 * (i / 4) - 4 + i % 4;
        assert(reverse_words_value(r)[i] == r[j]);
        assert(j / 4 == s.len() / 4 - 1 - i / 4);
        assert(j % 4 == i % 4);
        assert(r[j] == s[s.len() - 4 * (j / 4) - 4 + j % 4]);
    }
    assert(reverse_words_value(r) =~= s);
}

/// Undo the word order of a key component.
pub fn reverse_words(raw: &[u8]) -> (out: Vec<u8>)
    ensures
        out@ == reverse_words_value(raw@),
{
    let mut out: Vec<u8> = Vec::new();
    let mut end = raw.len();
    assert(raw@.take(end as int) =~= raw@);
    while end >= 4
        invariant
            end <= raw@.len(),
            out@ + reverse_words_value(raw@.take(end as int)) == reverse_words_value(raw@),
        decreases end,
    {
        let ghost before = out@;
        out.extend_from_slice(vstd::slice::slice_subrange(raw, end - 4, end));
        proof {
            let s = raw@.take(end as int);
            assert(s.subrange(s.len() - 4, s.len() as int) =~= raw@.subrange(end - 4, end as int));
            assert(s.take(s.len() - 4) =~= raw@.take(end - 4));
            assert(out@ + reverse_words_value(raw@.take(end - 4)) =~= before + reverse_words_value(s));
        }
        end -= 4;
    }
    let ghost before = out@;
    out.extend_from_slice(vstd::slice::slice_subrange(raw, 0, end));
    assert(raw@.subrange(0, end as int) =~= raw@.take(end as int));
    assert(out@ =~= before + reverse_words_value(raw@.take(end as int)));
    out
}

/// Capabilities a keyUsageFlags mask grants.
pub open spec fn usage_applied(o: TokenObject, p: TokenObject, usage: u32) -> bool {
    &&& p.can_encrypt == (usage & USAGE_ENCRYPT != 0)
    &&& p.can_decrypt == (usage & (USAGE_DECRYPT | USAGE_UNWRAP) != 0)
    &&& p.can_sign == (usage & (USAGE_SIGN | USAGE_SIGN_RECOVER) != 0)
    &&& p.can_verify == (usage & (USAGE_VERIFY | USAGE_VERIFY_RECOVER) != 0)
    &&& p.can_wrap == (usage & USAGE_WRAP != 0)
    &&& p.can_unwrap == (usage & USAGE_UNWRAP != 0)
    &&& p.handle == o.handle && p.cls == o.cls && p.label == o.label && p.id == o.id && p.key_ref == o.key_ref
    &&& p.private == o.private && p.modifiable == o.modifiable && p.local == o.local
    &&& p.data == o.data && p.subject == o.subject && p.issuer == o.issuer && p.serial == o.serial
    &&& p.application == o.application && p.app_oid == o.app_oid && p.modulus == o.modulus && p.pubexp == o.pubexp
    &&& p.modulus_bits == o.modulus_bits
}

/// Set the capability flags of `obj` from a keyUsageFlags mask.
pub fn apply_usage(usage: u32, obj: &mut TokenObject)
    ensures
        usage_applied(*old(obj), *final(obj), usage),
{
    obj.can_encrypt = usage & USAGE_ENCRYPT != 0;
    obj.can_decrypt = usage & (USAGE_DECRYPT | USAGE_UNWRAP) != 0;
    obj.can_sign = usage & (USAGE_SIGN | USAGE_SIGN_RECOVER) != 0;
    obj.can_verify = usage & (USAGE_VERIFY | USAGE_VERIFY_RECOVER) != 0;
    obj.can_wrap = usage & USAGE_WRAP != 0;
    obj.can_unwrap = usage & USAGE_UNWRAP != 0;
}

/// `t` is the element `s` of `data`.
pub open spec fn is_elem(t: DerTlv, data: Seq<u8>, s: TlvSpan) -> bool {
    t.tag == s.tag && t.val@ == tlv_val(data, s) && t.hdr_len == s.hdr && t.val_off == s.start
}

proof fn lemma_decoded(t: DerTlv, data: Seq<u8>, off: int)
    requires
        t.decoded_from(data, off),
    ensures
        tlv_at(data, off) matches Some(s) && is_elem(t, data, s) && tlv_end(s) == t.val_off + t.val@.len(),
{
}

/// What a PKCS#15 `Path` holds.
pub struct PathModel {
    pub bytes: Seq<u8>,
    pub index: u32,
    pub length: usize,
}

/// The optional `index INTEGER` and `length [0] INTEGER` after the path,
/// the last of each counting.
pub open spec fn path_attrs_from(val: Seq<u8>, off: int, acc: PathModel) -> PathModel
    decreases val.len() - off,
{
    if off < 0 || off >= val.len() {
        acc
    } else {
        match tlv_at(val, off) {
            None => acc,
            Some(e) => {
                proof { lemma_tlv_bounds(val, off); }
                let v = be_uint_value(tlv_val(val, e)) as u64;
                let acc2 = if e.tag == 0x02 {
                    PathModel { bytes: acc.bytes, index: v as u32, length: acc.length }
                } else if e.tag == 0x80 {
                    PathModel { bytes: acc.bytes, index: acc.index, length: v as usize }
                } else {
                    acc
                };
                path_attrs_from(val, tlv_end(e), acc2)
            },
        }
    }
}

/// `Path ::= SEQUENCE { path OCTET STRING, index INTEGER OPTIONAL, length
/// [0] INTEGER OPTIONAL }`, descending through an enclosing sequence; the
/// path must hold 1 to 32 bytes.
pub open spec fn parse_path_value(tag: u32, val: Seq<u8>) -> Option<PathModel>
    decreases val.len(),
{
    if tag != 0x30 {
        None
    } else {
        match tlv_at(val, 0) {
            None => None,
            Some(f) => {
                proof { lemma_tlv_bounds(val, 0); }
                if f.tag == 0x30 {
                    parse_path_value(0x30, tlv_val(val, f))
                } else if f.tag != 0x04 || f.len == 0 || f.len > MAX_PATH {
                    None
                } else {
                    Some(path_attrs_from(val, tlv_end(f), PathModel { bytes: tlv_val(val, f), index: 0, length: 0 }))
                }
            },
        }
    }
}

/// A path and what it describes.
pub open spec fn same_path(p: PathSpec, m: PathModel) -> bool {
    p.bytes@ == m.bytes && p.index == m.index && p.length == m.length
}

/// Parse a PKCS#15 `Path`.
pub fn parse_path_spec(t: &DerTlv) -> (r: Option<PathSpec>)
    ensures
        match parse_path_value(t.tag, t.val@) {
            Some(m) => r matches Some(p) && same_path(p, m),
            None => r is None,
        },
    decreases t.val@.len(),
{
    if t.tag != 0x30 {
        return None;
    }
    let (first, mut off) = match next(t.val, 0) {
        Ok(x) => x,
        Err(_) => return None,
    };
    proof { lemma_decoded(first, t.val@, 0); lemma_tlv_bounds(t.val@, 0); }
    if first.tag == 0x30 {
        return parse_path_spec(&first);
    }
    if first.tag != 0x04 || first.val.len() == 0 || first.val.len() > MAX_PATH {
        return None;
    }
    let mut spec = PathSpec { bytes: crate::bytes::bytes_to_vec(first.val), index: 0, length: 0 };
    let ghost goal = parse_path_value(t.tag, t.val@);
    while off < t.val.len()
        invariant
            off <= t.val@.len(),
            goal matches Some(m) && path_attrs_from(t.val@, off as int, PathModel { bytes: spec.bytes@, index: spec.index, length: spec.length }) == m,
        ensures
            off >= t.val@.len() || tlv_at(t.val@, off as int) is None,
            goal matches Some(m) && path_attrs_from(t.val@, off as int, PathModel { bytes: spec.bytes@, index: spec.index, length: spec.length }) == m,
        decreases t.val@.len() - off,
    {
        let (el, n) = match next(t.val, off) {
            Ok(x) => x,
            Err(_) => break,
        };
        proof { lemma_decoded(el, t.val@, off as int); }
        off = n;
        if el.tag == 0x02 {
            spec.index = be_uint(el.val) as u32;
        } else if el.tag == 0x80 {
            spec.length = be_uint(el.val) as usize;
        }
    }
    Some(spec)
}

/// The common, class and type attribute groups of an object record.
pub open spec fn entry_parts(val: Seq<u8>) -> Option<(TlvSpan, TlvSpan, TlvSpan)> {
    match tlv_at(val, 0) {
        None => None,
        Some(a) => match tlv_at(val, tlv_end(a)) {
            None => None,
            Some(b) => match tlv_at(val, tlv_end(b)) {
                None => None,
                Some(c) => Some((a, b, c)),
            },
        },
    }
}

/// Split a PKCS#15 object record into its common, class and type attribute
/// groups.
pub fn split_entry<'a>(entry: &DerTlv<'a>) -> (r: Option<(DerTlv<'a>, DerTlv<'a>, DerTlv<'a>)>)
    ensures
        match entry_parts(entry.val@) {
            Some((a, b, c)) => r matches Some((x, y, z)) && is_elem(x, entry.val@, a) && is_elem(y, entry.val@, b)
                && is_elem(z, entry.val@, c),
            None => r is None,
        },
{
    let (common, off) = match next(entry.val, 0) {
        Ok(x) => x,
        Err(_) => return None,
    };
    proof { lemma_decoded(common, entry.val@, 0); }
    let (class, off2) = match next(entry.val, off) {
        Ok(x) => x,
        Err(_) => return None,
    };
    proof { lemma_decoded(class, entry.val@, off as int); }
    let (type_attrs, _) = match next(entry.val, off2) {
        Ok(x) => x,
        Err(_) => return None,
    };
    proof { lemma_decoded(type_attrs, entry.val@, off2 as int); }
    Some((common, class, type_attrs))
}

/// What the common object attributes set: label, private and modifiable flags.
pub struct CommonModel {
    pub label: Seq<char>,
    pub private: bool,
    pub modifiable: bool,
}

/// Common attributes from `off` on: a text element sets the label, a BIT
/// STRING the flags; the last of each counts.
pub open spec fn common_attrs_from(val: Seq<u8>, off: int, acc: CommonModel) -> CommonModel
    decreases val.len() - off,
{
    if off < 0 || off >= val.len() {
        acc
    } else {
        match tlv_at(val, off) {
            None => acc,
            Some(e) => {
                proof { lemma_tlv_bounds(val, off); }
                let v = tlv_val(val, e);
                let acc2 = if e.tag == 0x0C || e.tag == 0x13 || e.tag == 0x16 {
                    CommonModel { label: label_text(v), private: acc.private, modifiable: acc.modifiable }
                } else if e.tag == 0x03 {
                    CommonModel {
                        label: acc.label,
                        private: bitstring_value(v) & OBJ_PRIVATE != 0,
                        modifiable: bitstring_value(v) & OBJ_MODIFIABLE != 0,
                    }
                } else {
                    acc
                };
                common_attrs_from(val, tlv_end(e), acc2)
            },
        }
    }
}

/// `p` is `o` with the common attributes `c` and nothing else changed.
pub open spec fn common_applied(o: TokenObject, p: TokenObject, c: CommonModel) -> bool {
    &&& p.label@ == c.label && p.private == c.private && p.modifiable == c.modifiable
    &&& p.handle == o.handle && p.cls == o.cls && p.id == o.id && p.key_ref == o.key_ref && p.local == o.local
    &&& p.can_sign == o.can_sign && p.can_decrypt == o.can_decrypt && p.can_verify == o.can_verify
    &&& p.can_encrypt == o.can_encrypt && p.can_wrap == o.can_wrap && p.can_unwrap == o.can_unwrap
    &&& p.data == o.data && p.subject == o.subject && p.issuer == o.issuer && p.serial == o.serial
    &&& p.application == o.application && p.app_oid == o.app_oid && p.modulus == o.modulus && p.pubexp == o.pubexp
    &&& p.modulus_bits == o.modulus_bits
}

/// The common attributes of `o` as a model.
pub open spec fn common_of(o: TokenObject) -> CommonModel {
    CommonModel { label: o.label@, private: o.private, modifiable: o.modifiable }
}

/// Apply the common object attributes (label, private and modifiable flags).
pub fn apply_common_attrs(t: &DerTlv, obj: &mut TokenObject)
    ensures
        common_applied(*old(obj), *final(obj), common_attrs_from(t.val@, 0, common_of(*old(obj)))),
{
    let mut off: usize = 0;
    let ghost goal = common_attrs_from(t.val@, 0, common_of(*old(obj)));
    while off < t.val.len()
        invariant
            off <= t.val@.len(),
            common_attrs_from(t.val@, off as int, common_of(*obj)) == goal,
            common_applied(*old(obj), *obj, common_of(*obj)),
        ensures
            off >= t.val@.len() || tlv_at(t.val@, off as int) is None,
            common_attrs_from(t.val@, off as int, common_of(*obj)) == goal,
            common_applied(*old(obj), *obj, common_of(*obj)),
        decreases t.val@.len() - off,
    {
        let (el, n) = match next(t.val, off) {
            Ok(x) => x,
            Err(_) => break,
        };
        proof { lemma_decoded(el, t.val@, off as int); }
        off = n;
        if el.tag == 0x0C || el.tag == 0x13 || el.tag == 0x16 {
            obj.label = copy_label(el.val);
        } else if el.tag == 0x03 {
            let bits = bitstring_bits(&el);
            obj.private = bits & OBJ_PRIVATE != 0;
            obj.modifiable = bits & OBJ_MODIFIABLE != 0;
        }
    }
}

/// Key attributes of an object record.
pub struct KeyAttrs {
    pub id: Vec<u8>,
    pub usage: u32,
    pub key_ref: i32,
    pub native: bool,
}

/// What key attributes hold.
pub struct KeyModel {
    pub id: Seq<u8>,
    pub usage: u32,
    pub key_ref: i32,
    pub native: bool,
}

/// Key attributes from `off` on: the identifier from the first OCTET STRING
/// found while it is still empty, usage from the last BIT STRING, `native`
/// from the last BOOLEAN, the key reference from the first INTEGER found
/// while it is still negative.
pub open spec fn key_attrs_from(val: Seq<u8>, off: int, acc: KeyModel) -> KeyModel
    decreases val.len() - off,
{
    if off < 0 || off >= val.len() {
        acc
    } else {
        match tlv_at(val, off) {
            None => acc,
            Some(e) => {
                proof { lemma_tlv_bounds(val, off); }
                let v = tlv_val(val, e);
                let acc2 = if e.tag == 0x04 && acc.id.len() == 0 {
                    KeyModel { id: v, usage: acc.usage, key_ref: acc.key_ref, native: acc.native }
                } else if e.tag == 0x03 {
                    KeyModel { id: acc.id, usage: bitstring_value(v), key_ref: acc.key_ref, native: acc.native }
                } else if e.tag == 0x01 {
                    KeyModel { id: acc.id, usage: acc.usage, key_ref: acc.key_ref, native: v.len() > 0 && v[0] != 0 }
                } else if e.tag == 0x02 && acc.key_ref < 0 {
                    KeyModel { id: acc.id, usage: acc.usage, key_ref: (be_uint_value(v) as u64) as i32, native: acc.native }
                } else {
                    acc
                };
                key_attrs_from(val, tlv_end(e), acc2)
            },
        }
    }
}

/// Key attributes of an element's value.
pub open spec fn key_attrs_value(val: Seq<u8>) -> KeyModel {
    key_attrs_from(val, 0, KeyModel { id: Seq::empty(), usage: 0, key_ref: -1i32, native: false })
}

/// Key attributes and what they describe.
pub open spec fn same_key_attrs(a: KeyAttrs, m: KeyModel) -> bool {
    a.id@ == m.id && a.usage == m.usage && a.key_ref == m.key_ref && a.native == m.native
}

/// Parse the class attributes of a key record.
pub fn parse_key_attrs(t: &DerTlv) -> (r: KeyAttrs)
    ensures
        same_key_attrs(r, key_attrs_value(t.val@)),
{
    let mut out = KeyAttrs { id: Vec::new(), usage: 0, key_ref: -1, native: false };
    let mut off: usize = 0;
    assert(out.id@ =~= Seq::<u8>::empty());
    while off < t.val.len()
        invariant
            off <= t.val@.len(),
            key_attrs_from(t.val@, off as int, KeyModel { id: out.id@, usage: out.usage, key_ref: out.key_ref, native: out.native })
                == key_attrs_value(t.val@),
        ensures
            off >= t.val@.len() || tlv_at(t.val@, off as int) is None,
            key_attrs_from(t.val@, off as int, KeyModel { id: out.id@, usage: out.usage, key_ref: out.key_ref, native: out.native })
                == key_attrs_value(t.val@),
        decreases t.val@.len() - off,
    {
        let (el, n) = match next(t.val, off) {
            Ok(x) => x,
            Err(_) => break,
        };
        proof { lemma_decoded(el, t.val@, off as int); }
        off = n;
        if el.tag == 0x04 && out.id.len() == 0 {
            out.id = crate::bytes::bytes_to_vec(el.val);
        } else if el.tag == 0x03 {
            out.usage = bitstring_bits(&el);
        } else if el.tag == 0x01 {
            out.native = el.val.len() > 0 && el.val[0] != 0;
        } else if el.tag == 0x02 && out.key_ref < 0 {
            out.key_ref = be_uint(el.val) as i32;
        }
    }
    out
}

/// The path inside `[1] typeAttributes`.
pub open spec fn type_attrs_path_value(tag: u32, val: Seq<u8>) -> Option<PathModel> {
    if tag & 0x20 == 0 {
        None
    } else {
        match tlv_at(val, 0) {
            None => None,
            Some(v) => parse_path_value(v.tag, tlv_val(val, v)),
        }
    }
}

/// Path held by the `[1] typeAttributes` field of an object record.
pub fn type_attrs_path(t: &DerTlv) -> (r: Option<PathSpec>)
    ensures
        match type_attrs_path_value(t.tag, t.val@) {
            Some(m) => r matches Some(p) && same_path(p, m),
            None => r is None,
        },
{
    let inner = match enter(t) {
        Ok(i) => i,
        Err(_) => return None,
    };
    let (value, _) = match next(inner, 0) {
        Ok(x) => x,
        Err(_) => return None,
    };
    proof { lemma_decoded(value, inner@, 0); }
    parse_path_spec(&value)
}

/// The first INTEGER from `off` on, as long as the elements decode.
pub open spec fn first_integer_from(val: Seq<u8>, off: int) -> Option<u64>
    decreases val.len() - off,
{
    if off < 0 || off >= val.len() {
        None
    } else {
        match tlv_at(val, off) {
            None => None,
            Some(e) => {
                proof { lemma_tlv_bounds(val, off); }
                if e.tag == 0x02 {
                    Some(be_uint_value(tlv_val(val, e)) as u64)
                } else {
                    first_integer_from(val, tlv_end(e))
                }
            },
        }
    }
}

/// `modulusLength`: the first INTEGER after the key path, inside the
/// sequence that `[1] typeAttributes` holds.
pub open spec fn type_attrs_modulus_bits_value(tag: u32, val: Seq<u8>) -> Option<u64> {
    if tag & 0x20 == 0 {
        None
    } else {
        match tlv_at(val, 0) {
            None => None,
            Some(q) => {
                let sv = tlv_val(val, q);
                match tlv_at(sv, 0) {
                    None => None,
                    Some(f) => first_integer_from(sv, tlv_end(f)),
                }
            },
        }
    }
}

/// `modulusLength` next to the key path inside `[1] typeAttributes`.
pub fn type_attrs_modulus_bits(t: &DerTlv) -> (r: Option<u64>)
    ensures
        r == type_attrs_modulus_bits_value(t.tag, t.val@),
{
    let inner = match enter(t) {
        Ok(i) => i,
        Err(_) => return None,
    };
    let (seq, _) = match next(inner, 0) {
        Ok(x) => x,
        Err(_) => return None,
    };
    proof { lemma_decoded(seq, inner@, 0); }
    let (first, mut off) = match next(seq.val, 0) {
        Ok(x) => x,
        Err(_) => return None,
    };
    proof { lemma_decoded(first, seq.val@, 0); }
    while off < seq.val.len()
        invariant
            off <= seq.val@.len(),
            first_integer_from(seq.val@, off as int) == type_attrs_modulus_bits_value(t.tag, t.val@),
        ensures
            off >= seq.val@.len() || tlv_at(seq.val@, off as int) is None,
            first_integer_from(seq.val@, off as int) == type_attrs_modulus_bits_value(t.tag, t.val@),
        decreases seq.val@.len() - off,
    {
        let (el, n) = match next(seq.val, off) {
            Ok(x) => x,
            Err(_) => break,
        };
        proof { lemma_decoded(el, seq.val@, off as int); }
        off = n;
        if el.tag == 0x02 {
            return Some(be_uint(el.val));
        }
    }
    None
}

/// Modulus and public exponent of a `SubjectPublicKeyInfo` holding an RSA
/// key, leading zero bytes dropped.
pub open spec fn rsa_from_spki(spki: Seq<u8>) -> Option<(Seq<u8>, Seq<u8>)> {
    match tlv_at(spki, 0) {
        None => None,
        Some(q) => if q.tag != 0x30 {
            None
        } else {
            let sv = tlv_val(spki, q);
            match tlv_at(sv, 0) {
                None => None,
                Some(alg) => match tlv_at(sv, tlv_end(alg)) {
                    None => None,
                    Some(b) => {
                        let bv = tlv_val(sv, b);
                        if b.tag != 0x03 || bv.len() == 0 {
                            None
                        } else {
                            let kb = bv.drop_first();
                            match tlv_at(kb, 0) {
                                None => None,
                                Some(r) => if r.tag != 0x30 {
                                    None
                                } else {
                                    let rv = tlv_val(kb, r);
                                    match tlv_at(rv, 0) {
                                        None => None,
                                        Some(m) => match tlv_at(rv, tlv_end(m)) {
                                            None => None,
                                            Some(e) => if m.tag != 0x02 || e.tag != 0x02 {
                                                None
                                            } else {
                                                Some((strip_leading_zeros(tlv_val(rv, m)), strip_leading_zeros(tlv_val(rv, e))))
                                            },
                                        },
                                    }
                                },
                            }
                        }
                    },
                },
            }
        }
    }
}

/// Modulus and exponent of an RSA `SubjectPublicKeyInfo`.
pub fn extract_rsa_from_spki(spki: &[u8]) -> (r: Result<(Vec<u8>, Vec<u8>), ()>)
    ensures
        match rsa_from_spki(spki@) {
            Some((m, e)) => r matches Ok((a, b)) && a@ == m && b@ == e,
            None => r is Err,
        },
        r matches Ok((a, _)) ==> a@.len() <= spki@.len(),
{
    let (seq, _) = match next(spki, 0) {
        Ok(x) => x,
        Err(_) => return Err(()),
    };
    proof { lemma_decoded(seq, spki@, 0); }
    if seq.tag != 0x30 {
        return Err(());
    }
    let (alg, off) = match next(seq.val, 0) {
        Ok(x) => x,
        Err(_) => return Err(()),
    };
    proof { lemma_decoded(alg, seq.val@, 0); }
    let (bits, _) = match next(seq.val, off) {
        Ok(x) => x,
        Err(_) => return Err(()),
    };
    proof { lemma_decoded(bits, seq.val@, off as int); }
    if bits.tag != 0x03 {
        return Err(());
    }
    let kb = match get_bytes(&bits) {
        Ok(b) => b,
        Err(_) => return Err(()),
    };
    let (rsa, _) = match next(kb, 0) {
        Ok(x) => x,
        Err(_) => return Err(()),
    };
    proof { lemma_decoded(rsa, kb@, 0); }
    if rsa.tag != 0x30 {
        return Err(());
    }
    let (modulus, off2) = match next(rsa.val, 0) {
        Ok(x) => x,
        Err(_) => return Err(()),
    };
    proof { lemma_decoded(modulus, rsa.val@, 0); }
    let (exponent, _) = match next(rsa.val, off2) {
        Ok(x) => x,
        Err(_) => return Err(()),
    };
    proof { lemma_decoded(exponent, rsa.val@, off2 as int); }
    if modulus.tag != 0x02 || exponent.tag != 0x02 {
        return Err(());
    }
    proof { lemma_strip_leading_zeros_len(modulus.val@); }
    Ok((trim_leading_zeros(modulus.val), trim_leading_zeros(exponent.val)))
}

/// The first `k` elements from `off` on, as long as they decode.
pub open spec fn elems_upto(data: Seq<u8>, off: int, k: nat) -> Seq<TlvSpan>
    decreases k,
{
    if k == 0 || off < 0 || off >= data.len() {
        Seq::empty()
    } else {
        match tlv_at(data, off) {
            None => Seq::empty(),
            Some(e) => seq![e] + elems_upto(data, tlv_end(e), (k - 1) as nat),
        }
    }
}

/// The `TBSCertificate` contents of a certificate and the offset of its
/// first field after the optional `[0]` version.
pub open spec fn tbs_body(cert: Seq<u8>) -> Option<(Seq<u8>, int)> {
    match tlv_at(cert, 0) {
        None => None,
        Some(top) => {
            let tv = tlv_val(cert, top);
            match tlv_at(tv, 0) {
                None => None,
                Some(tbs) => if tbs.tag != 0x30 {
                    None
                } else {
                    let body = tlv_val(tv, tbs);
                    if body.len() > 0 && body[0] == 0xA0 {
                        match tlv_at(body, 0) {
                            None => None,
                            Some(v) => Some((body, tlv_end(v))),
                        }
                    } else {
                        Some((body, 0))
                    }
                },
            }
        }
    }
}

/// Tag, length and value of element `e` of `data`.
pub open spec fn full_elem(data: Seq<u8>, e: TlvSpan) -> Seq<u8> {
    data.subrange(e.start - e.hdr, tlv_end(e))
}

/// `p` is `o` after reading certificate `cert`: serial number, issuer and
/// subject (whole elements), and the RSA key when the key info holds one.
/// A certificate without six readable fields leaves `o` as it is.
pub open spec fn cert_applied(o: TokenObject, p: TokenObject, cert: Seq<u8>) -> bool {
    let same_rest = p.handle == o.handle && p.cls == o.cls && p.label == o.label && p.id == o.id && p.key_ref == o.key_ref
        && p.private == o.private && p.modifiable == o.modifiable && p.local == o.local && p.can_sign == o.can_sign
        && p.can_decrypt == o.can_decrypt && p.can_verify == o.can_verify && p.can_encrypt == o.can_encrypt
        && p.can_wrap == o.can_wrap && p.can_unwrap == o.can_unwrap && p.data == o.data
        && p.application == o.application && p.app_oid == o.app_oid;
    match tbs_body(cert) {
        None => p == o,
        Some((body, off)) => {
            let f = elems_upto(body, off, 6);
            if f.len() < 6 {
                p == o
            } else {
                &&& same_rest
                &&& p.serial@ == full_elem(body, f[0])
                &&& p.issuer@ == full_elem(body, f[2])
                &&& p.subject@ == full_elem(body, f[4])
                &&& match rsa_from_spki(full_elem(body, f[5])) {
                    Some((m, e)) => p.modulus@ == m && p.pubexp@ == e && p.modulus_bits == modulus_bits_value(m) as u64,
                    None => p.modulus == o.modulus && p.pubexp == o.pubexp && p.modulus_bits == o.modulus_bits,
                }
            }
        },
    }
}

proof fn lemma_strip_leading_zeros_len(s: Seq<u8>)
    ensures
        strip_leading_zeros(s).len() <= s.len(),
    decreases s.len(),
{
    if s.len() > 0 && s[0] == 0 {
        lemma_strip_leading_zeros_len(s.drop_first());
    }
}

/// The first (at most) six elements of `body` from `off` on.
fn leading_elems<'a>(body: &'a [u8], off: usize) -> (r: (Vec<DerTlv<'a>>, Ghost<Seq<TlvSpan>>))
    requires
        off <= body@.len(),
    ensures
        r.1@ == elems_upto(body@, off as int, 6),
        r.0@.len() == r.1@.len() <= 6,
        forall|i: int| 0 <= i < r.1@.len() ==> #[trigger] is_elem(r.0@[i], body@, r.1@[i]),
        forall|i: int| 0 <= i < r.1@.len() ==> tlv_end(#[trigger] r.1@[i]) <= body@.len() && r.1@[i].hdr <= r.1@[i].start,
{
    let mut off = off;
    let ghost start = off as int;
    let ghost goal = elems_upto(body@, start, 6);
    let mut fields: Vec<DerTlv> = Vec::new();
    let ghost mut done: Seq<TlvSpan> = Seq::empty();
    while off < body.len() && fields.len() < 6
        invariant
            off <= body@.len(),
            fields@.len() == done.len() <= 6,
            goal == done + elems_upto(body@, off as int, (6 - done.len()) as nat),
            forall|i: int| 0 <= i < done.len() ==> #[trigger] is_elem(fields@[i], body@, done[i]),
            forall|i: int| 0 <= i < done.len() ==> tlv_end(#[trigger] done[i]) <= body@.len() && done[i].hdr <= done[i].start,
        ensures
            fields@.len() == done.len() <= 6,
            forall|i: int| 0 <= i < done.len() ==> #[trigger] is_elem(fields@[i], body@, done[i]),
            forall|i: int| 0 <= i < done.len() ==> tlv_end(#[trigger] done[i]) <= body@.len() && done[i].hdr <= done[i].start,
            goal == done + elems_upto(body@, off as int, (6 - done.len()) as nat),
            off >= body@.len() || done.len() >= 6 || tlv_at(body@, off as int) is None,
        decreases 6 - fields@.len(),
    {
        let (el, n) = match next(body, off) {
            Ok(x) => x,
            Err(_) => break,
        };
        proof {
            lemma_decoded(el, body@, off as int);
            lemma_tlv_bounds(body@, off as int);
            let e = tlv_at(body@, off as int).unwrap();
            assert(done + elems_upto(body@, off as int, (6 - done.len()) as nat)
                =~= done.push(e) + elems_upto(body@, n as int, (6 - done.len() - 1) as nat));
            done = done.push(e);
        }
        fields.push(el);
        off = n;
    }
    assert(elems_upto(body@, off as int, (6 - done.len()) as nat) =~= Seq::<TlvSpan>::empty());
    assert(done + Seq::<TlvSpan>::empty() =~= done);
    (fields, Ghost(done))
}

/// Pull subject, issuer, serial number and RSA public key out of an X.509
/// certificate.
#[verifier::rlimit(100)]
#[verifier::spinoff_prover]
pub fn parse_cert_fields(cert: &[u8], obj: &mut TokenObject)
    ensures
        cert_applied(*old(obj), *final(obj), cert@),
{
    let (top, _) = match next(cert, 0) {
        Ok(x) => x,
        Err(_) => return,
    };
    proof { lemma_decoded(top, cert@, 0); }
    let (tbs, _) = match next(top.val, 0) {
        Ok(x) => x,
        Err(_) => return,
    };
    proof { lemma_decoded(tbs, top.val@, 0); }
    if tbs.tag != 0x30 {
        return;
    }
    let body = tbs.val;
    let mut off: usize = 0;
    if body.len() > 0 && body[0] == 0xA0 {
        match next(body, 0) {
            Ok((v, n)) => {
                proof { lemma_decoded(v, body@, 0); }
                off = n;
            },
            Err(_) => return,
        }
    }
    let (fields, Ghost(done)) = leading_elems(body, off);
    if fields.len() < 6 {
        return;
    }
    proof {
        assert(is_elem(fields@[0], body@, done[0]) && tlv_end(done[0]) <= body@.len());
        assert(is_elem(fields@[2], body@, done[2]) && tlv_end(done[2]) <= body@.len());
        assert(is_elem(fields@[4], body@, done[4]) && tlv_end(done[4]) <= body@.len());
        assert(is_elem(fields@[5], body@, done[5]) && tlv_end(done[5]) <= body@.len());
    }
    obj.serial = crate::bytes::bytes_to_vec(fields[0].full_slice(body));
    obj.issuer = crate::bytes::bytes_to_vec(fields[2].full_slice(body));
    obj.subject = crate::bytes::bytes_to_vec(fields[4].full_slice(body));
    match extract_rsa_from_spki(fields[5].full_slice(body)) {
        Ok((modulus, exponent)) => {
            obj.modulus_bits = modulus_bit_len(&modulus);
            obj.modulus = modulus;
            obj.pubexp = exponent;
        },
        Err(_) => {},
    }
}

/// The PIN reference in AODF data from `off` on: the first one-byte
/// INTEGER met walking the elements depth first, stopping at padding or a
/// decode failure.
pub open spec fn aodf_pin_from(buf: Seq<u8>, off: int) -> Option<u8>
    decreases buf.len(), buf.len() - off,
{
    if off < 0 || off >= buf.len() || buf[off] == 0x00 || buf[off] == 0xFF {
        None
    } else {
        match tlv_at(buf, off) {
            None => None,
            Some(t) => {
                proof { lemma_tlv_bounds(buf, off); }
                if t.tag == 0x02 && t.len == 1 {
                    Some(buf[t.start])
                } else if t.tag & 0x20 != 0 && aodf_pin_from(tlv_val(buf, t), 0) is Some {
                    aodf_pin_from(tlv_val(buf, t), 0)
                } else {
                    aodf_pin_from(buf, tlv_end(t))
                }
            },
        }
    }
}

fn aodf_walk(buf: &[u8]) -> (r: Option<u8>)
    ensures
        r == aodf_pin_from(buf@, 0),
    decreases buf@.len(),
{
    let mut off: usize = 0;
    while off < buf.len()
        invariant
            off <= buf@.len(),
            aodf_pin_from(buf@, 0) == aodf_pin_from(buf@, off as int),
        ensures
            off >= buf@.len() || buf@[off as int] == 0x00 || buf@[off as int] == 0xFF || tlv_at(buf@, off as int) is None,
            aodf_pin_from(buf@, 0) == aodf_pin_from(buf@, off as int),
        decreases buf@.len() - off,
    {
        if buf[off] == 0x00 || buf[off] == 0xFF {
            break;
        }
        let (t, n) = match next(buf, off) {
            Ok(x) => x,
            Err(_) => break,
        };
        proof { lemma_decoded(t, buf@, off as int); lemma_tlv_bounds(buf@, off as int); }
        if t.tag == 0x02 && t.val.len() == 1 {
            return Some(t.val[0]);
        }
        if t.tag & 0x20 != 0 {
            match aodf_walk(t.val) {
                Some(pin_ref) => return Some(pin_ref),
                None => {},
            }
        }
        off = n;
    }
    None
}

/// The AODF carries the PIN reference used by VERIFY.
pub fn parse_aodf_pin(buf: &[u8]) -> (r: Option<u8>)
    ensures
        r == aodf_pin_from(buf@, 0),
{
    aodf_walk(buf)
}

/// What TokenInfo sets: manufacturer and label, and which of them were seen.
pub struct TokenInfoModel {
    pub manufacturer: Seq<char>,
    pub label: Seq<char>,
    pub man_done: bool,
    pub lbl_done: bool,
}

/// TokenInfo elements from `off` on: the first text element is the
/// manufacturer, the second the label; a `[0]` element is the label. The
/// boolean is false when an element fails to decode.
pub open spec fn tokeninfo_from(val: Seq<u8>, off: int, acc: TokenInfoModel) -> (bool, TokenInfoModel)
    decreases val.len() - off,
{
    if off < 0 || off >= val.len() {
        (true, acc)
    } else {
        match tlv_at(val, off) {
            None => (false, acc),
            Some(t) => {
                proof { lemma_tlv_bounds(val, off); }
                let text = label_text(tlv_val(val, t));
                let acc2 = if t.tag == 0x0C || t.tag == 0x13 || t.tag == 0x16 {
                    if !acc.man_done {
                        TokenInfoModel { manufacturer: text, label: acc.label, man_done: true, lbl_done: acc.lbl_done }
                    } else if !acc.lbl_done {
                        TokenInfoModel { manufacturer: acc.manufacturer, label: text, man_done: acc.man_done, lbl_done: true }
                    } else {
                        acc
                    }
                } else if t.tag == 0x80 {
                    TokenInfoModel { manufacturer: acc.manufacturer, label: text, man_done: acc.man_done, lbl_done: true }
                } else {
                    acc
                };
                tokeninfo_from(val, tlv_end(t), acc2)
            },
        }
    }
}

/// `p` is `o` with manufacturer `man` and label `lbl`.
pub open spec fn texts_set(o: Token, p: Token, man: Seq<char>, lbl: Seq<char>) -> bool {
    &&& p.manufacturer@ == man && p.label@ == lbl
    &&& p.bound == o.bound && p.model == o.model && p.serial == o.serial && p.min_pin == o.min_pin
    &&& p.max_pin == o.max_pin && p.pin_ref == o.pin_ref && p.objs == o.objs
}

/// Parse EF.TokenInfo into `tok`: refused unless it starts with a
/// SEQUENCE. An element that fails to decode refuses it too, after the
/// texts met before it were taken. On success an empty label or
/// manufacturer gets the default one.
pub open spec fn tokeninfo_applied(o: Token, p: Token, buf: Seq<u8>, ok: bool) -> bool {
    match tlv_at(buf, 0) {
        None => !ok && p == o,
        Some(q) => if q.tag != 0x30 {
            !ok && p == o
        } else {
            let w = tokeninfo_from(tlv_val(buf, q), 0, TokenInfoModel {
                manufacturer: o.manufacturer@,
                label: o.label@,
                man_done: false,
                lbl_done: false,
            });
            if w.0 {
                ok && texts_set(
                    o,
                    p,
                    if w.1.manufacturer.len() == 0 { default_manufacturer() } else { w.1.manufacturer },
                    if w.1.label.len() == 0 { default_label() } else { w.1.label },
                )
            } else {
                !ok && texts_set(o, p, w.1.manufacturer, w.1.label)
            }
        },
    }
}

/// Parse EF.TokenInfo: manufacturer and label.
pub fn parse_tokeninfo(buf: &[u8], tok: &mut Token) -> (r: Result<(), ()>)
    ensures
        tokeninfo_applied(*old(tok), *final(tok), buf@, r is Ok),
{
    let (seq, _) = match next(buf, 0) {
        Ok(x) => x,
        Err(_) => return Err(()),
    };
    proof { lemma_decoded(seq, buf@, 0); }
    if seq.tag != 0x30 {
        return Err(());
    }
    let mut man_done = false;
    let mut lbl_done = false;
    let mut off: usize = 0;
    let ghost init = TokenInfoModel { manufacturer: tok.manufacturer@, label: tok.label@, man_done: false, lbl_done: false };
    let ghost goal = tokeninfo_from(seq.val@, 0, init);
    while off < seq.val.len()
        invariant
            off <= seq.val@.len(),
            goal == tokeninfo_from(seq.val@, off as int, TokenInfoModel {
                manufacturer: tok.manufacturer@,
                label: tok.label@,
                man_done,
                lbl_done,
            }),
            texts_set(*old(tok), *tok, tok.manufacturer@, tok.label@),
            tlv_at(buf@, 0) matches Some(q) && q.tag == 0x30 && tlv_val(buf@, q) == seq.val@,
            goal == tokeninfo_from(seq.val@, 0, init),
            init == (TokenInfoModel { manufacturer: old(tok).manufacturer@, label: old(tok).label@, man_done: false, lbl_done: false }),
        decreases seq.val@.len() - off,
    {
        let (t, n) = match next(seq.val, off) {
            Ok(x) => x,
            Err(_) => return Err(()),
        };
        proof { lemma_decoded(t, seq.val@, off as int); }
        off = n;
        if t.tag == 0x0C || t.tag == 0x13 || t.tag == 0x16 {
            if !man_done {
                tok.manufacturer = copy_label(t.val);
                man_done = true;
            } else if !lbl_done {
                tok.label = copy_label(t.val);
                lbl_done = true;
            }
        } else if t.tag == 0x80 {
            tok.label = copy_label(t.val);
            lbl_done = true;
        }
    }
    if tok.label.as_str().unicode_len() == 0 {
        tok.label = default_label_string();
    }
    if tok.manufacturer.as_str().unicode_len() == 0 {
        tok.manufacturer = default_manufacturer_string();
    }
    Ok(())
}

/// Object records from `off` on that yield objects: SEQUENCE elements that
/// split into common, class and type attributes, at most `room` of them;
/// the walk stops at padding (`00`, `FF`) or an element that fails to decode.
pub open spec fn entries_from(buf: Seq<u8>, off: int, room: int) -> Seq<TlvSpan>
    decreases buf.len() - off,
{
    if off < 0 || off >= buf.len() || buf[off] == 0x00 || buf[off] == 0xFF {
        Seq::empty()
    } else {
        match tlv_at(buf, off) {
            None => Seq::empty(),
            Some(e) => {
                proof { lemma_tlv_bounds(buf, off); }
                if e.tag == 0x30 && room > 0 && entry_parts(tlv_val(buf, e)) is Some {
                    seq![e] + entries_from(buf, tlv_end(e), room - 1)
                } else {
                    entries_from(buf, tlv_end(e), room)
                }
            },
        }
    }
}

/// Kind of directory file.
#[derive(Clone, Copy, PartialEq, Eq, Structural, Debug)]
pub enum DirKind {
    PrKdf,
    PuKdf,
    Cdf,
    Dodf,
}

/// DODF class attributes from `off` on: a text element names the
/// application, an OBJECT IDENTIFIER gives its OID; the last of each counts.
pub open spec fn dodf_class_from(val: Seq<u8>, off: int, app: Seq<char>, oid: Seq<u8>) -> (Seq<char>, Seq<u8>)
    decreases val.len() - off,
{
    if off < 0 || off >= val.len() {
        (app, oid)
    } else {
        match tlv_at(val, off) {
            None => (app, oid),
            Some(e) => {
                proof { lemma_tlv_bounds(val, off); }
                let v = tlv_val(val, e);
                if e.tag == 0x0C || e.tag == 0x13 || e.tag == 0x16 {
                    dodf_class_from(val, tlv_end(e), label_text(v), oid)
                } else if e.tag == 0x06 {
                    dodf_class_from(val, tlv_end(e), app, v)
                } else {
                    dodf_class_from(val, tlv_end(e), app, oid)
                }
            },
        }
    }
}

/// Fields of `o` that a record does not set are blank.
pub open spec fn blank_rest(o: TokenObject) -> bool {
    &&& o.data@ == Seq::<u8>::empty() && o.subject@ == Seq::<u8>::empty() && o.issuer@ == Seq::<u8>::empty()
    &&& o.serial@ == Seq::<u8>::empty() && o.modulus@ == Seq::<u8>::empty() && o.pubexp@ == Seq::<u8>::empty()
}

/// Capabilities of a usage mask are those of `o`.
pub open spec fn usage_flags(o: TokenObject, usage: u32) -> bool {
    &&& o.can_encrypt == (usage & USAGE_ENCRYPT != 0)
    &&& o.can_decrypt == (usage & (USAGE_DECRYPT | USAGE_UNWRAP) != 0)
    &&& o.can_sign == (usage & (USAGE_SIGN | USAGE_SIGN_RECOVER) != 0)
    &&& o.can_verify == (usage & (USAGE_VERIFY | USAGE_VERIFY_RECOVER) != 0)
    &&& o.can_wrap == (usage & USAGE_WRAP != 0)
    &&& o.can_unwrap == (usage & USAGE_UNWRAP != 0)
}

/// No capabilities.
pub open spec fn no_usage(o: TokenObject) -> bool {
    !o.can_sign && !o.can_decrypt && !o.can_verify && !o.can_encrypt && !o.can_wrap && !o.can_unwrap
}

/// The object a record with value `val` describes in a directory of `kind`
/// (before its handle is given): private keys are private and generated on
/// the card; public keys take `native` and `modulusLength`; data objects
/// their application.
#[verifier::opaque]
pub open spec fn record_object(kind: DirKind, o: TokenObject, val: Seq<u8>) -> bool {
    match entry_parts(val) {
        None => false,
        Some((a, b, c)) => {
            let common = tlv_val(val, a);
            let class = tlv_val(val, b);
            let ka = key_attrs_value(class);
            let start = CommonModel { label: Seq::empty(), private: kind == DirKind::PrKdf, modifiable: false };
            let cm = common_attrs_from(common, 0, start);
            &&& o.label@ == cm.label && o.modifiable == cm.modifiable
            &&& blank_rest(o)
            &&& match kind {
                DirKind::PrKdf => o.cls == ObjClass::PrivKey && o.id@ == ka.id && o.key_ref == ka.key_ref && o.private
                    && o.local && usage_flags(o, ka.usage) && o.application@ == Seq::<char>::empty()
                    && o.app_oid@ == Seq::<u8>::empty() && o.modulus_bits == 0,
                DirKind::PuKdf => o.cls == ObjClass::PubKey && o.id@ == ka.id && o.key_ref == ka.key_ref
                    && o.private == cm.private && o.local == ka.native && usage_flags(o, ka.usage)
                    && o.application@ == Seq::<char>::empty() && o.app_oid@ == Seq::<u8>::empty()
                    && o.modulus_bits == match type_attrs_modulus_bits_value(c.tag, tlv_val(val, c)) { Some(v) => v, None => 0 },
                DirKind::Cdf => o.cls == ObjClass::Cert && o.id@ == ka.id && o.key_ref == -1 && o.private == cm.private
                    && !o.local && no_usage(o) && o.application@ == Seq::<char>::empty() && o.app_oid@ == Seq::<u8>::empty()
                    && o.modulus_bits == 0,
                DirKind::Dodf => {
                    let d = dodf_class_from(class, 0, Seq::empty(), Seq::empty());
                    o.cls == ObjClass::Data && o.id@ == Seq::<u8>::empty() && o.key_ref == -1 && o.private == cm.private
                        && !o.local && no_usage(o) && o.application@ == d.0 && o.app_oid@ == d.1 && o.modulus_bits == 0
                },
            }
        },
    }
}

/// The path a record of `kind` points to: none for private keys, else the
/// one in its type attributes.
pub open spec fn record_path(kind: DirKind, p: Option<PathSpec>, val: Seq<u8>) -> bool {
    match entry_parts(val) {
        None => false,
        Some((a, b, c)) => if kind == DirKind::PrKdf {
            p is None
        } else {
            match type_attrs_path_value(c.tag, tlv_val(val, c)) {
                Some(m) => p matches Some(x) && same_path(x, m),
                None => p is None,
            }
        },
    }
}

fn dodf_class(class: &DerTlv) -> (r: (String, Vec<u8>))
    ensures
        (r.0@, r.1@) == dodf_class_from(class.val@, 0, Seq::empty(), Seq::empty()),
{
    let mut app = String::new();
    let mut oid: Vec<u8> = Vec::new();
    let mut off: usize = 0;
    assert(oid@ =~= Seq::<u8>::empty());
    let ghost goal = dodf_class_from(class.val@, 0, Seq::empty(), Seq::empty());
    while off < class.val.len()
        invariant
            off <= class.val@.len(),
            goal == dodf_class_from(class.val@, off as int, app@, oid@),
        ensures
            off >= class.val@.len() || tlv_at(class.val@, off as int) is None,
            goal == dodf_class_from(class.val@, off as int, app@, oid@),
        decreases class.val@.len() - off,
    {
        let (el, n) = match next(class.val, off) {
            Ok(x) => x,
            Err(_) => break,
        };
        proof { lemma_decoded(el, class.val@, off as int); }
        off = n;
        if el.tag == 0x0C || el.tag == 0x13 || el.tag == 0x16 {
            app = copy_label(el.val);
        } else if el.tag == 0x06 {
            oid = crate::bytes::bytes_to_vec(el.val);
        }
    }
    (app, oid)
}

/// The object (without handle) and path of one directory record.
pub fn build_object(kind: DirKind, entry: &DerTlv, handle: u64) -> (r: Option<(TokenObject, Option<PathSpec>)>)
    ensures
        match entry_parts(entry.val@) {
            None => r is None,
            Some(_) => r matches Some((o, p)) && record_object(kind, o, entry.val@) && record_path(kind, p, entry.val@)
                && o.handle == handle,
        },
{
    reveal(record_object);
    let (common, class, type_attrs) = match split_entry(entry) {
        Some(x) => x,
        None => return None,
    };
    let mut obj = TokenObject::default();
    obj.handle = handle;
    match kind {
        DirKind::PrKdf => {
            let attrs = parse_key_attrs(&class);
            obj.cls = ObjClass::PrivKey;
            obj.id = attrs.id;
            obj.key_ref = attrs.key_ref;
            obj.private = true;
            obj.local = true;
            apply_common_attrs(&common, &mut obj);
            apply_usage(attrs.usage, &mut obj);
            obj.private = true;
            Some((obj, None))
        },
        DirKind::PuKdf => {
            let attrs = parse_key_attrs(&class);
            obj.cls = ObjClass::PubKey;
            obj.id = attrs.id;
            obj.key_ref = attrs.key_ref;
            obj.local = attrs.native;
            obj.modulus_bits = match type_attrs_modulus_bits(&type_attrs) {
                Some(v) => v,
                None => 0,
            };
            apply_common_attrs(&common, &mut obj);
            apply_usage(attrs.usage, &mut obj);
            let path = type_attrs_path(&type_attrs);
            Some((obj, path))
        },
        DirKind::Cdf => {
            let attrs = parse_key_attrs(&class);
            obj.cls = ObjClass::Cert;
            obj.id = attrs.id;
            apply_common_attrs(&common, &mut obj);
            let path = type_attrs_path(&type_attrs);
            Some((obj, path))
        },
        DirKind::Dodf => {
            obj.cls = ObjClass::Data;
            apply_common_attrs(&common, &mut obj);
            let (app, oid) = dodf_class(&class);
            obj.application = app;
            obj.app_oid = oid;
            let path = type_attrs_path(&type_attrs);
            Some((obj, path))
        },
    }
}

/// `o` and `p` are the object, with handle `handle`, and the path of record `e` of `buf`.
pub open spec fn entry_ok(kind: DirKind, o: TokenObject, p: Option<PathSpec>, buf: Seq<u8>, e: TlvSpan, handle: int) -> bool {
    record_object(kind, o, tlv_val(buf, e)) && record_path(kind, p, tlv_val(buf, e)) && o.handle == handle
}

/// The objects and paths of the records of a directory file, at most `room`
/// of them, with handles numbered on from `base`.
pub fn directory_entries(kind: DirKind, buf: &[u8], room: usize, base: usize)
    -> (r: (Vec<TokenObject>, Vec<Option<PathSpec>>))
    requires
        room == 0 || base + room <= MAX_OBJS,
    ensures
        r.0@.len() == r.1@.len() == entries_from(buf@, 0, room as int).len(),
        forall|k: int| 0 <= k < r.0@.len() ==> entry_ok(kind, #[trigger] r.0@[k], r.1@[k], buf@, entries_from(buf@, 0, room as int)[k], base + k + 1),
{
    let mut objs: Vec<TokenObject> = Vec::new();
    let mut paths: Vec<Option<PathSpec>> = Vec::new();
    let mut off: usize = 0;
    let ghost goal = entries_from(buf@, 0, room as int);
    let ghost mut done: Seq<TlvSpan> = Seq::empty();
    assert(goal == done + entries_from(buf@, 0, room as int));
    while off < buf.len()
        invariant
            off <= buf@.len(),
            room == 0 || base + room <= MAX_OBJS,
            objs@.len() == paths@.len() == done.len() <= room,
            goal == done + entries_from(buf@, off as int, room - done.len()),
            forall|k: int| 0 <= k < objs@.len() ==> entry_ok(kind, #[trigger] objs@[k], paths@[k], buf@, done[k], base + k + 1),
        ensures
            objs@.len() == paths@.len() == done.len(),
            goal == done + entries_from(buf@, off as int, room - done.len()),
            off >= buf@.len() || buf@[off as int] == 0x00 || buf@[off as int] == 0xFF || tlv_at(buf@, off as int) is None,
            forall|k: int| 0 <= k < objs@.len() ==> entry_ok(kind, #[trigger] objs@[k], paths@[k], buf@, done[k], base + k + 1),
        decreases buf@.len() - off,
    {
        if buf[off] == 0x00 || buf[off] == 0xFF {
            break;
        }
        let (entry, n) = match next(buf, off) {
            Ok(x) => x,
            Err(_) => break,
        };
        proof { lemma_decoded(entry, buf@, off as int); lemma_tlv_bounds(buf@, off as int); }
        let ghost e = tlv_at(buf@, off as int).unwrap();
        off = n;
        if entry.tag == 0x30 && objs.len() < room {
            match build_object(kind, &entry, (base + objs.len() + 1) as u64) {
                Some((o, p)) => {
                    let ghost old_objs = objs@;
                    let ghost old_paths = paths@;
                    let ghost old_done = done;
                    proof {
                        assert(done + entries_from(buf@, e.start - e.hdr, room - done.len())
                            =~= done.push(e) + entries_from(buf@, n as int, room - done.len() - 1));
                        done = done.push(e);
                    }
                    objs.push(o);
                    paths.push(p);
                    proof {
                        assert(entry.val@ == tlv_val(buf@, e));
                        assert forall|k: int| 0 <= k < objs@.len() implies entry_ok(kind, #[trigger] objs@[k], paths@[k], buf@, done[k], base + k + 1) by {
                            if k < old_objs.len() {
                                assert(done[k] == old_done[k]);
                                assert(objs@[k] == old_objs[k]);
                                assert(paths@[k] == old_paths[k]);
                            }
                        }
                    }
                },
                None => {},
            }
        }
    }
    proof {
        assert(entries_from(buf@, off as int, room - done.len()) =~= Seq::<TlvSpan>::empty());
        assert(goal =~= done);
    }
    (objs, paths)
}

/// `p` keeps the first `n` objects of `o` and every other field of it.
pub open spec fn token_extended(o: Token, p: Token, n: int) -> bool {
    &&& p.bound == o.bound && p.label == o.label && p.manufacturer == o.manufacturer && p.model == o.model
    &&& p.serial == o.serial && p.min_pin == o.min_pin && p.max_pin == o.max_pin && p.pin_ref == o.pin_ref
    &&& p.objs@.len() >= n && n <= o.objs@.len()
    &&& forall|i: int| 0 <= i < n ==> p.objs@[i] == o.objs@[i]
}

/// Room left for objects on a token holding `n`.
pub open spec fn room_for(n: int) -> int {
    if n >= MAX_OBJS { 0 } else { MAX_OBJS - n }
}

fn room(tok: &Token) -> (r: usize)
    ensures
        r == room_for(tok.objs@.len() as int),
{
    if tok.objs.len() >= MAX_OBJS { 0 } else { MAX_OBJS - tok.objs.len() }
}

/// Parse a PrKDF: one private key object per record, handles numbered on
/// from the objects already held, up to [`MAX_OBJS`] objects in all.
pub fn parse_prkdf(tok: &mut Token, buf: &[u8])
    ensures
        ({
            let n = old(tok).objs@.len() as int;
            let es = entries_from(buf@, 0, room_for(n));
            &&& token_extended(*old(tok), *final(tok), n)
            &&& final(tok).objs@.len() == n + es.len()
            &&& forall|k: int| 0 <= k < es.len() ==> {
                let o = #[trigger] final(tok).objs@[n + k];
                record_object(DirKind::PrKdf, o, tlv_val(buf@, es[k])) && o.handle == n + k + 1
            }
        }),
{
    let r = room(tok);
    let (mut objs, _) = directory_entries(DirKind::PrKdf, buf, r, tok.objs.len());
    let ghost n = tok.objs@.len() as int;
    let ghost added = objs@;
    tok.objs.append(&mut objs);
    assert forall|k: int| 0 <= k < added.len() implies tok.objs@[n + k] == added[k] by {}
}

/// Index of the first public key or certificate from `j` on with
/// identifier `id` and a modulus.
pub open spec fn key_source_from(objs: Seq<TokenObject>, id: Seq<u8>, j: int) -> Option<int>
    decreases objs.len() - j,
{
    if j < 0 || j >= objs.len() {
        None
    } else if objs[j].id@ == id && objs[j].modulus@.len() > 0 && (objs[j].cls == ObjClass::PubKey || objs[j].cls == ObjClass::Cert) {
        Some(j)
    } else {
        key_source_from(objs, id, j + 1)
    }
}

/// A private key without public material but with an identifier.
pub open spec fn needs_key(o: TokenObject) -> bool {
    o.cls == ObjClass::PrivKey && o.modulus@.len() == 0 && o.id@.len() > 0
}

/// `p` is `o` with modulus, exponent and bit length taken from `src`.
pub open spec fn key_copied(o: TokenObject, p: TokenObject, src: TokenObject) -> bool {
    &&& p.modulus@ == src.modulus@ && p.pubexp@ == src.pubexp@ && p.modulus_bits == src.modulus_bits
    &&& p.handle == o.handle && p.cls == o.cls && p.label == o.label && p.id == o.id && p.key_ref == o.key_ref
    &&& p.private == o.private && p.modifiable == o.modifiable && p.local == o.local
    &&& p.can_sign == o.can_sign && p.can_decrypt == o.can_decrypt && p.can_verify == o.can_verify
    &&& p.can_encrypt == o.can_encrypt && p.can_wrap == o.can_wrap && p.can_unwrap == o.can_unwrap
    &&& p.data == o.data && p.subject == o.subject && p.issuer == o.issuer && p.serial == o.serial
    &&& p.application == o.application && p.app_oid == o.app_oid
}

/// Object `i` after linking: a private key that needs public material takes
/// it from the first public key or certificate sharing its identifier.
pub open spec fn linked_object(objs: Seq<TokenObject>, i: int, p: TokenObject) -> bool {
    let o = objs[i];
    if needs_key(o) && key_source_from(objs, o.id@, 0) is Some {
        key_copied(o, p, objs[key_source_from(objs, o.id@, 0).unwrap()])
    } else {
        p == o
    }
}

proof fn lemma_key_source_same(a: Seq<TokenObject>, b: Seq<TokenObject>, id: Seq<u8>, j: int)
    requires
        a.len() == b.len(),
        forall|k: int| 0 <= k < a.len() ==> (#[trigger] a[k]).cls == b[k].cls,
        forall|k: int| 0 <= k < a.len() && a[k].cls != ObjClass::PrivKey ==> #[trigger] b[k] == a[k],
    ensures
        key_source_from(a, id, j) == key_source_from(b, id, j),
    decreases a.len() - j,
{
    if 0 <= j < a.len() {
        assert(a[j].cls == b[j].cls);
        if a[j].cls != ObjClass::PrivKey {
            assert(b[j] == a[j]);
        }
        lemma_key_source_same(a, b, id, j + 1);
    }
}

proof fn lemma_key_source_props(objs: Seq<TokenObject>, id: Seq<u8>, j: int)
    ensures
        key_source_from(objs, id, j) matches Some(x) ==> j <= x < objs.len() && objs[x].id@ == id
            && objs[x].modulus@.len() > 0 && (objs[x].cls == ObjClass::PubKey || objs[x].cls == ObjClass::Cert),
    decreases objs.len() - j,
{
    if 0 <= j < objs.len() {
        lemma_key_source_props(objs, id, j + 1);
    }
}

fn key_source(objs: &Vec<TokenObject>, id: &[u8]) -> (r: Option<usize>)
    ensures
        match key_source_from(objs@, id@, 0) {
            Some(j) => r matches Some(x) && x as int == j,
            None => r is None,
        },
        r matches Some(x) ==> x < objs@.len(),
{
    let mut j: usize = 0;
    while j < objs.len()
        invariant
            j <= objs@.len(),
            key_source_from(objs@, id@, 0) == key_source_from(objs@, id@, j as int),
        decreases objs@.len() - j,
    {
        let o = &objs[j];
        if crate::bytes::bytes_eq(&o.id, id) && o.modulus.len() > 0 && (o.cls == ObjClass::PubKey || o.cls == ObjClass::Cert) {
            return Some(j);
        }
        j += 1;
    }
    None
}

/// Private keys carry no public material on the card; take it from the
/// public key or certificate sharing their identifier.
pub fn link_key_material(tok: &mut Token)
    ensures
        token_extended(*old(tok), *final(tok), 0),
        final(tok).objs@.len() == old(tok).objs@.len(),
        forall|i: int| 0 <= i < old(tok).objs@.len() ==> linked_object(old(tok).objs@, i, #[trigger] final(tok).objs@[i]),
{
    let ghost orig = tok.objs@;
    let mut i: usize = 0;
    while i < tok.objs.len()
        invariant
            token_extended(*old(tok), *tok, 0),
            orig == old(tok).objs@,
            tok.objs@.len() == orig.len(),
            i <= orig.len(),
            forall|k: int| 0 <= k < orig.len() ==> (#[trigger] orig[k]).cls == tok.objs@[k].cls,
            forall|k: int| 0 <= k < orig.len() && orig[k].cls != ObjClass::PrivKey ==> #[trigger] tok.objs@[k] == orig[k],
            forall|k: int| 0 <= k < i ==> linked_object(orig, k, #[trigger] tok.objs@[k]),
            forall|k: int| i <= k < orig.len() ==> #[trigger] tok.objs@[k] == orig[k],
        decreases orig.len() - i,
    {
        let needs = tok.objs[i].cls == ObjClass::PrivKey && tok.objs[i].modulus.len() == 0 && tok.objs[i].id.len() > 0;
        if needs {
            let id = crate::bytes::bytes_to_vec(&tok.objs[i].id);
            proof {
                lemma_key_source_same(orig, tok.objs@, id@, 0);
                lemma_key_source_props(orig, id@, 0);
                assert(tok.objs@[i as int] == orig[i as int]);
            }
            match key_source(&tok.objs, &id) {
                Some(j) => {
                    let ghost before = tok.objs@;
                    assert(before[j as int] == orig[j as int]);
                    let modulus = crate::bytes::bytes_to_vec(&tok.objs[j].modulus);
                    let pubexp = crate::bytes::bytes_to_vec(&tok.objs[j].pubexp);
                    let bits = tok.objs[j].modulus_bits;
                    tok.objs[i].modulus = modulus;
                    tok.objs[i].pubexp = pubexp;
                    tok.objs[i].modulus_bits = bits;
                    proof {
                        assert(key_copied(orig[i as int], tok.objs@[i as int], orig[j as int]));
                        assert forall|k: int| 0 <= k < orig.len() && k != i implies #[trigger] tok.objs@[k] == before[k] by {}
                    }
                },
                None => {},
            }
        }
        i += 1;
    }
}

/// The first object with `handle`, if any.
pub open spec fn find_from(objs: Seq<TokenObject>, handle: u64, j: int) -> Option<int>
    decreases objs.len() - j,
{
    if j < 0 || j >= objs.len() {
        None
    } else if objs[j].handle == handle {
        Some(j)
    } else {
        find_from(objs, handle, j + 1)
    }
}

/// The object with `handle`.
pub fn find(tok: &Token, handle: u64) -> (r: Option<&TokenObject>)
    ensures
        match find_from(tok.objs@, handle, 0) {
            Some(j) => r matches Some(o) && *o == tok.objs@[j],
            None => r is None,
        },
{
    let mut j: usize = 0;
    while j < tok.objs.len()
        invariant
            j <= tok.objs@.len(),
            find_from(tok.objs@, handle, 0) == find_from(tok.objs@, handle, j as int),
        decreases tok.objs@.len() - j,
    {
        if tok.objs[j].handle == handle {
            return Some(&tok.objs[j]);
        }
        j += 1;
    }
    None
}

/// The object a record with value `val` describes in a directory of `kind`,
/// with handle `handle` (see [`record_object`]).
#[verifier::opaque]
pub open spec fn record_model(kind: DirKind, val: Seq<u8>, handle: u64) -> ObjModel {
    let (a, b, c) = entry_parts(val).unwrap();
    let common = tlv_val(val, a);
    let class = tlv_val(val, b);
    let ka = key_attrs_value(class);
    let cm = common_attrs_from(common, 0, CommonModel { label: Seq::empty(), private: kind == DirKind::PrKdf, modifiable: false });
    let key = kind == DirKind::PrKdf || kind == DirKind::PuKdf;
    let d = dodf_class_from(class, 0, Seq::empty(), Seq::empty());
    ObjModel {
        handle,
        cls: match kind {
            DirKind::PrKdf => ObjClass::PrivKey,
            DirKind::PuKdf => ObjClass::PubKey,
            DirKind::Cdf => ObjClass::Cert,
            DirKind::Dodf => ObjClass::Data,
        },
        label: cm.label,
        id: if kind == DirKind::Dodf { Seq::empty() } else { ka.id },
        key_ref: if key { ka.key_ref } else { -1i32 },
        private: if kind == DirKind::PrKdf { true } else { cm.private },
        modifiable: cm.modifiable,
        local: if kind == DirKind::PrKdf { true } else if kind == DirKind::PuKdf { ka.native } else { false },
        can_sign: key && ka.usage & (USAGE_SIGN | USAGE_SIGN_RECOVER) != 0,
        can_decrypt: key && ka.usage & (USAGE_DECRYPT | USAGE_UNWRAP) != 0,
        can_verify: key && ka.usage & (USAGE_VERIFY | USAGE_VERIFY_RECOVER) != 0,
        can_encrypt: key && ka.usage & USAGE_ENCRYPT != 0,
        can_wrap: key && ka.usage & USAGE_WRAP != 0,
        can_unwrap: key && ka.usage & USAGE_UNWRAP != 0,
        data: Seq::empty(),
        subject: Seq::empty(),
        issuer: Seq::empty(),
        serial: Seq::empty(),
        application: if kind == DirKind::Dodf { d.0 } else { Seq::empty() },
        app_oid: if kind == DirKind::Dodf { d.1 } else { Seq::empty() },
        modulus: Seq::empty(),
        pubexp: Seq::empty(),
        modulus_bits: if kind == DirKind::PuKdf {
            match type_attrs_modulus_bits_value(c.tag, tlv_val(val, c)) {
                Some(v) => v,
                None => 0,
            }
        } else {
            0
        },
    }
}

/// A record object is the object its model describes.
pub proof fn lemma_record_model(kind: DirKind, o: TokenObject, val: Seq<u8>)
    requires
        record_object(kind, o, val),
    ensures
        o@ == record_model(kind, val, o.handle),
{
    reveal(record_object);
    reveal(record_model);
    assert(o@ =~= record_model(kind, val, o.handle));
}

/// `o` after reading certificate `cert` (see [`cert_applied`]).
#[verifier::opaque]
pub open spec fn cert_model(o: ObjModel, cert: Seq<u8>) -> ObjModel {
    match tbs_body(cert) {
        None => o,
        Some((body, off)) => {
            let f = elems_upto(body, off, 6);
            if f.len() < 6 {
                o
            } else {
                let o2 = ObjModel { serial: full_elem(body, f[0]), issuer: full_elem(body, f[2]), subject: full_elem(body, f[4]), ..o };
                match rsa_from_spki(full_elem(body, f[5])) {
                    Some((m, e)) => ObjModel { modulus: m, pubexp: e, modulus_bits: modulus_bits_value(m) as u64, ..o2 },
                    None => o2,
                }
            }
        },
    }
}

/// What [`parse_cert_fields`] does to an object, on its model.
pub proof fn lemma_cert_model(o: TokenObject, p: TokenObject, cert: Seq<u8>)
    requires
        cert_applied(o, p, cert),
    ensures
        p@ == cert_model(o@, cert),
{
    reveal(cert_model);
    assert(p@ =~= cert_model(o@, cert));
}

/// `t` after parsing TokenInfo `buf`, and whether that succeeded (see [`tokeninfo_applied`]).
pub open spec fn tokeninfo_model(t: TokenModel, buf: Seq<u8>) -> (bool, TokenModel) {
    match tlv_at(buf, 0) {
        None => (false, t),
        Some(q) => if q.tag != 0x30 {
            (false, t)
        } else {
            let w = tokeninfo_from(tlv_val(buf, q), 0, TokenInfoModel {
                manufacturer: t.manufacturer,
                label: t.label,
                man_done: false,
                lbl_done: false,
            });
            if w.0 {
                (true, TokenModel {
                    manufacturer: if w.1.manufacturer.len() == 0 { default_manufacturer() } else { w.1.manufacturer },
                    label: if w.1.label.len() == 0 { default_label() } else { w.1.label },
                    ..t
                })
            } else {
                (false, TokenModel { manufacturer: w.1.manufacturer, label: w.1.label, ..t })
            }
        },
    }
}

/// What [`parse_tokeninfo`] does to a token, on its model.
pub proof fn lemma_tokeninfo_model(o: Token, p: Token, buf: Seq<u8>, ok: bool)
    requires
        tokeninfo_applied(o, p, buf, ok),
    ensures
        (ok, p@) == tokeninfo_model(o@, buf),
{
    assert(p@ =~= tokeninfo_model(o@, buf).1);
}

/// Index of the first public key or certificate model from `j` on with
/// identifier `id` and a modulus.
pub open spec fn key_source_model(objs: Seq<ObjModel>, id: Seq<u8>, j: int) -> Option<int>
    decreases objs.len() - j,
{
    if j < 0 || j >= objs.len() {
        None
    } else if objs[j].id == id && objs[j].modulus.len() > 0 && (objs[j].cls == ObjClass::PubKey || objs[j].cls == ObjClass::Cert) {
        Some(j)
    } else {
        key_source_model(objs, id, j + 1)
    }
}

/// The objects after private keys took their public material from the first
/// public key or certificate sharing their identifier.
pub open spec fn linked_models(objs: Seq<ObjModel>) -> Seq<ObjModel> {
    Seq::new(objs.len(), |i: int| {
        let o = objs[i];
        if o.cls == ObjClass::PrivKey && o.modulus.len() == 0 && o.id.len() > 0 && key_source_model(objs, o.id, 0) is Some {
            let src = objs[key_source_model(objs, o.id, 0).unwrap()];
            ObjModel { modulus: src.modulus, pubexp: src.pubexp, modulus_bits: src.modulus_bits, ..o }
        } else {
            o
        }
    })
}

proof fn lemma_key_source_model(objs: Seq<TokenObject>, id: Seq<u8>, j: int)
    ensures
        key_source_from(objs, id, j) == key_source_model(obj_models(objs), id, j),
    decreases objs.len() - j,
{
    if 0 <= j < objs.len() {
        lemma_key_source_model(objs, id, j + 1);
    }
}

/// What [`link_key_material`] does to the objects, on their models.
pub proof fn lemma_linked_models(o: Seq<TokenObject>, p: Seq<TokenObject>)
    requires
        p.len() == o.len(),
        forall|i: int| 0 <= i < o.len() ==> linked_object(o, i, #[trigger] p[i]),
    ensures
        obj_models(p) == linked_models(obj_models(o)),
{
    assert forall|i: int| 0 <= i < o.len() implies #[trigger] obj_models(p)[i] == linked_models(obj_models(o))[i] by {
        lemma_key_source_model(o, o[i].id@, 0);
        lemma_key_source_props(o, o[i].id@, 0);
        assert(linked_object(o, i, p[i]));
        assert(obj_models(o)[i] == o[i]@);
        assert(obj_models(p)[i] == p[i]@);
        if needs_key(o[i]) && key_source_from(o, o[i].id@, 0) is Some {
            let j = key_source_from(o, o[i].id@, 0).unwrap();
            assert(obj_models(o)[j] == o[j]@);
            assert(obj_models(p)[i] =~= linked_models(obj_models(o))[i]);
        } else {
            assert(obj_models(p)[i] =~= linked_models(obj_models(o))[i]);
        }
    }
    assert(obj_models(p) =~= linked_models(obj_models(o)));
}

/// A unit outcome with the card state, and what it describes.
pub open spec fn same_unit_card(a: (Result<(), ()>, CardState), b: (Result<(), ()>, CardState)) -> bool {
    a == b
}

/// A byte outcome with the card state, and what it describes.
pub open spec fn same_bytes_card(a: (Result<Vec<u8>, ()>, CardState), b: (Result<Seq<u8>, ()>, CardState)) -> bool {
    &&& a.1 == b.1
    &&& match (a.0, b.0) {
        (Ok(x), Ok(y)) => x@ == y,
        (Err(_), Err(_)) => true,
        _ => false,
    }
}

/// An optional byte string with the card state, and what it describes.
pub open spec fn same_opt_card(a: (Option<Vec<u8>>, CardState), b: (Option<Seq<u8>>, CardState)) -> bool {
    &&& a.1 == b.1
    &&& match (a.0, b.0) {
        (Some(x), Some(y)) => x@ == y,
        (None, None) => true,
        _ => false,
    }
}

/// SELECT an EF by path: from the MF when the path starts at `3F00`, by
/// identifier when it is one file, else relative to the current DF; an
/// empty path is refused.
pub open spec fn spec_select_ef(st: CardState, path: Seq<u8>, log: Seq<Option<Response>>, at: int)
    -> SFlow<(Result<(), ()>, CardState)> {
    if path.len() == 0 {
        SFlow::Done((Err(()), st), at)
    } else if path.len() >= 2 && path[0] == 0x3F && path[1] == 0x00 {
        spec_select_path(st, path, true, log, at)
    } else if path.len() == 2 {
        then(spec_select_fid(st, path_fid(path, 0), log, at), |r: Result<(), ()>, n: int| SFlow::Done((r, st), n))
    } else {
        spec_select_path(st, path, false, log, at)
    }
}

pub fn select_ef(st: &CardState, path: &[u8], log: &[Option<Response>], at: usize) -> (r: Flow<(Result<(), ()>, CardState)>)
    requires
        at <= log@.len(),
    ensures
        flow_matches(r, spec_select_ef(*st, path@, log@, at as int), |a, b| same_unit_card(a, b)),
        flow_within(r, at as int, log@.len() as int),
{
    if path.len() == 0 {
        return Flow::Done((Err(()), *st), at);
    }
    if path.len() >= 2 && path[0] == 0x3F && path[1] == 0x00 {
        select_path(st, path, true, log, at)
    } else if path.len() == 2 {
        let fid: u16 = ((path[0] as u16) << 8) | path[1] as u16;
        match select_fid(st, fid, log, at) {
            Flow::Transmit(c) => Flow::Transmit(c),
            Flow::Done(r, n) => Flow::Done((r, *st), n),
        }
    } else {
        select_path(st, path, false, log, at)
    }
}

/// The whole EF at `path`.
pub open spec fn spec_read_ef_path(st: CardState, path: Seq<u8>, log: Seq<Option<Response>>, at: int)
    -> SFlow<(Result<Seq<u8>, ()>, CardState)> {
    then(
        spec_select_ef(st, path, log, at),
        |v: (Result<(), ()>, CardState), n: int| if v.0 is Err {
            SFlow::Done((Err(()), v.1), n)
        } else {
            then(spec_read_ef_from(v.1, 0, Seq::empty(), log, n), |r: Result<Seq<u8>, ()>, m: int| SFlow::Done((r, v.1), m))
        },
    )
}

pub fn read_ef_path(st: &CardState, path: &[u8], log: &[Option<Response>], at: usize) -> (r: Flow<(Result<Vec<u8>, ()>, CardState)>)
    requires
        at <= log@.len(),
    ensures
        flow_matches(r, spec_read_ef_path(*st, path@, log@, at as int), |a, b| same_bytes_card(a, b)),
        flow_within(r, at as int, log@.len() as int),
{
    let (s, n) = match select_ef(st, path, log, at) {
        Flow::Transmit(c) => return Flow::Transmit(c),
        Flow::Done((Err(()), s), n) => return Flow::Done((Err(()), s), n),
        Flow::Done((Ok(()), s), n) => (s, n),
    };
    match read_ef(&s, log, n) {
        Flow::Transmit(c) => Flow::Transmit(c),
        Flow::Done(r, m) => Flow::Done((r, s), m),
    }
}

/// Exactly `want` bytes at `offset` of the EF at `path`; a short read is refused.
pub open spec fn spec_read_ef_bytes(st: CardState, path: Seq<u8>, offset: u32, want: usize, log: Seq<Option<Response>>, at: int)
    -> SFlow<(Result<Seq<u8>, ()>, CardState)> {
    then(
        spec_select_ef(st, path, log, at),
        |v: (Result<(), ()>, CardState), n: int| if v.0 is Err {
            SFlow::Done((Err(()), v.1), n)
        } else {
            then(
                spec_read_binary(v.1, offset as int, want as int, log, n),
                |r: Result<Seq<u8>, ()>, m: int| match r {
                    Ok(d) => if d.len() < want { SFlow::Done((Err(()), v.1), m) } else { SFlow::Done((Ok(d), v.1), m) },
                    Err(_) => SFlow::Done((Err(()), v.1), m),
                },
            )
        },
    )
}

pub fn read_ef_bytes(st: &CardState, path: &[u8], offset: u32, want: usize, log: &[Option<Response>], at: usize)
    -> (r: Flow<(Result<Vec<u8>, ()>, CardState)>)
    requires
        at <= log@.len(),
    ensures
        flow_matches(r, spec_read_ef_bytes(*st, path@, offset, want, log@, at as int), |a, b| same_bytes_card(a, b)),
        flow_within(r, at as int, log@.len() as int),
{
    let (s, n) = match select_ef(st, path, log, at) {
        Flow::Transmit(c) => return Flow::Transmit(c),
        Flow::Done((Err(()), s), n) => return Flow::Done((Err(()), s), n),
        Flow::Done((Ok(()), s), n) => (s, n),
    };
    match read_binary(&s, offset, want, log, n) {
        Flow::Transmit(c) => Flow::Transmit(c),
        Flow::Done(Ok(d), m) => if d.len() < want { Flow::Done((Err(()), s), m) } else { Flow::Done((Ok(d), s), m) },
        Flow::Done(Err(()), m) => Flow::Done((Err(()), s), m),
    }
}

/// SELECT the MF, then the HiCOS DF `5030`.
pub open spec fn spec_select_hicos_df(st: CardState, log: Seq<Option<Response>>, at: int) -> SFlow<(Result<(), ()>, CardState)> {
    then(
        spec_select_mf(st, log, at),
        |v: (Result<(), ()>, CardState), n: int| if v.0 is Err {
            SFlow::Done((Err(()), v.1), n)
        } else {
            then(spec_select_fid(v.1, FID_HICOS_DF, log, n), |r: Result<(), ()>, m: int| SFlow::Done((r, v.1), m))
        },
    )
}

pub fn select_hicos_df(st: &CardState, log: &[Option<Response>], at: usize) -> (r: Flow<(Result<(), ()>, CardState)>)
    requires
        at <= log@.len(),
    ensures
        flow_matches(r, spec_select_hicos_df(*st, log@, at as int), |a, b| same_unit_card(a, b)),
        flow_within(r, at as int, log@.len() as int),
{
    let (s, n) = match select_mf(st, log, at) {
        Flow::Transmit(c) => return Flow::Transmit(c),
        Flow::Done((Err(()), s), n) => return Flow::Done((Err(()), s), n),
        Flow::Done((Ok(()), s), n) => (s, n),
    };
    match select_fid(&s, FID_HICOS_DF, log, n) {
        Flow::Transmit(c) => Flow::Transmit(c),
        Flow::Done(r, m) => Flow::Done((r, s), m),
    }
}

/// The bytes read as the outcome: refused when empty.
pub open spec fn dir_outcome(buf: Seq<u8>) -> Result<Seq<u8>, ()> {
    if buf.len() == 0 { Err(()) } else { Ok(buf) }
}

/// Reading a directory file forward from `off` in `C8`-byte chunks (a
/// failed read counts as empty) until the record sequence ends on padding
/// (cut there), a chunk comes back short or empty, or more than 16 KiB were read.
pub open spec fn dir_read_from(st: CardState, off: int, buf: Seq<u8>, log: Seq<Option<Response>>, at: int)
    -> SFlow<(Result<Seq<u8>, ()>, CardState)>
    decreases (if buf.len() <= 16384 { 16385 - buf.len() } else { 0 }),
{
    match spec_read_binary(st, off, CHUNK as int, log, at) {
        SFlow::Transmit(c) => SFlow::Transmit(c),
        SFlow::Done(r, n) => {
            let d = match r {
                Ok(d) => d,
                Err(_) => Seq::empty(),
            };
            if d.len() == 0 {
                SFlow::Done((dir_outcome(buf), st), n)
            } else {
                let b2 = buf + d;
                match records_end_from(b2, 0) {
                    Some(e) => SFlow::Done((dir_outcome(b2.take(e)), st), n),
                    None => if d.len() < CHUNK || b2.len() > 16384 || buf.len() > 16384 {
                        SFlow::Done((dir_outcome(b2), st), n)
                    } else {
                        dir_read_from(st, off + d.len(), b2, log, n)
                    },
                }
            }
        },
    }
}

/// A directory file under the HiCOS DF: the card reports no file size on
/// SELECT, so it is read forward until the record sequence ends on padding.
pub open spec fn spec_read_directory_file(st: CardState, fid: u16, log: Seq<Option<Response>>, at: int)
    -> SFlow<(Result<Seq<u8>, ()>, CardState)> {
    then(
        spec_select_hicos_df(st, log, at),
        |v: (Result<(), ()>, CardState), n: int| if v.0 is Err {
            SFlow::Done((Err(()), v.1), n)
        } else {
            then(
                spec_select_fid(v.1, fid, log, n),
                |r: Result<(), ()>, n2: int| if r is Err { SFlow::Done((Err(()), v.1), n2) } else { dir_read_from(v.1, 0, Seq::empty(), log, n2) },
            )
        },
    )
}

proof fn lemma_records_end_bound(buf: Seq<u8>, off: int)
    ensures
        records_end_from(buf, off) matches Some(e) ==> 0 <= e <= buf.len(),
    decreases buf.len() - off,
{
    if 0 <= off < buf.len() && !(buf[off] == 0x00 || buf[off] == 0xFF) {
        lemma_tlv_bounds(buf, off);
        if tlv_at(buf, off) is Some {
            lemma_records_end_bound(buf, tlv_end(tlv_at(buf, off).unwrap()));
        }
    }
}

pub fn read_directory_file(st: &CardState, fid: u16, log: &[Option<Response>], at: usize)
    -> (r: Flow<(Result<Vec<u8>, ()>, CardState)>)
    requires
        at <= log@.len(),
    ensures
        flow_matches(r, spec_read_directory_file(*st, fid, log@, at as int), |a, b| same_bytes_card(a, b)),
        flow_within(r, at as int, log@.len() as int),
{
    let (s, n) = match select_hicos_df(st, log, at) {
        Flow::Transmit(c) => return Flow::Transmit(c),
        Flow::Done((Err(()), s), n) => return Flow::Done((Err(()), s), n),
        Flow::Done((Ok(()), s), n) => (s, n),
    };
    let mut pos = match select_fid(&s, fid, log, n) {
        Flow::Transmit(c) => return Flow::Transmit(c),
        Flow::Done(Err(()), m) => return Flow::Done((Err(()), s), m),
        Flow::Done(Ok(()), m) => m,
    };
    let ghost goal = spec_read_directory_file(*st, fid, log@, at as int);
    let mut buf: Vec<u8> = Vec::new();
    let mut off: u32 = 0;
    assert(buf@ =~= Seq::<u8>::empty());
    loop
        invariant
            at <= pos <= log@.len(),
            buf@.len() <= 16384,
            off as int == buf@.len(),
            goal == spec_read_directory_file(*st, fid, log@, at as int),
            goal == dir_read_from(s, off as int, buf@, log@, pos as int),
        decreases 16385 - buf@.len(),
    {
        let d = match read_binary(&s, off, CHUNK, log, pos) {
            Flow::Transmit(c) => return Flow::Transmit(c),
            Flow::Done(Ok(d), m) => {
                pos = m;
                d
            },
            Flow::Done(Err(()), m) => {
                pos = m;
                Vec::new()
            },
        };
        let got = d.len();
        if got == 0 {
            assert(d@ =~= Seq::<u8>::empty());
            return if buf.len() == 0 { Flow::Done((Err(()), s), pos) } else { Flow::Done((Ok(buf), s), pos) };
        }
        let ghost old_buf = buf@;
        buf.extend_from_slice(&d);
        assert(buf@ =~= old_buf + d@);
        proof { lemma_records_end_bound(buf@, 0); }
        match records_end(&buf) {
            Some(end) => {
                buf.truncate(end);
                assert(buf@ =~= (old_buf + d@).take(end as int));
                return if buf.len() == 0 { Flow::Done((Err(()), s), pos) } else { Flow::Done((Ok(buf), s), pos) };
            },
            None => {},
        }
        if got < CHUNK || buf.len() > 16384 {
            return Flow::Done((Ok(buf), s), pos);
        }
        off = off + got as u32;
    }
}

/// The bytes of an object value: cut to the DER element it starts with, or
/// else stripped of trailing padding.
pub open spec fn object_bytes(raw: Seq<u8>) -> Seq<u8> {
    match tlv_at(raw, 0) {
        Some(e) => raw.take(tlv_end(e)),
        None => strip_padding(raw),
    }
}

/// The slice of a file a PKCS#15 path describes (4096 bytes when it gives
/// no length), trimmed to the DER object it starts with; `None` when empty
/// or unreadable.
#[verifier::opaque]
pub open spec fn spec_read_object_value(st: CardState, path: PathModel, log: Seq<Option<Response>>, at: int)
    -> SFlow<(Option<Seq<u8>>, CardState)> {
    then(
        spec_select_ef(st, path.bytes, log, at),
        |v: (Result<(), ()>, CardState), n: int| if v.0 is Err {
            SFlow::Done((None, v.1), n)
        } else {
            let want: int = if path.length > 0 { path.length as int } else { 4096 };
            then(
                spec_read_range_from(v.1, path.index as int, want, Seq::empty(), log, n),
                |r: Result<Seq<u8>, ()>, m: int| match r {
                    Err(_) => SFlow::Done((None, v.1), m),
                    Ok(raw) => {
                        let t = object_bytes(raw);
                        SFlow::Done((if t.len() == 0 { None } else { Some(t) }, v.1), m)
                    },
                },
            )
        },
    )
}

pub fn read_object_value(st: &CardState, path: &PathSpec, log: &[Option<Response>], at: usize)
    -> (r: Flow<(Option<Vec<u8>>, CardState)>)
    requires
        at <= log@.len(),
    ensures
        flow_matches(
            r,
            spec_read_object_value(*st, PathModel { bytes: path.bytes@, index: path.index, length: path.length }, log@, at as int),
            |a, b| same_opt_card(a, b),
        ),
        flow_within(r, at as int, log@.len() as int),
{
    reveal(spec_read_object_value);
    let (s, n) = match select_ef(st, &path.bytes, log, at) {
        Flow::Transmit(c) => return Flow::Transmit(c),
        Flow::Done((Err(()), s), n) => return Flow::Done((None, s), n),
        Flow::Done((Ok(()), s), n) => (s, n),
    };
    let want: usize = if path.length > 0 { path.length } else { 4096 };
    let (mut raw, m) = match read_binary_range(&s, path.index, want, log, n) {
        Flow::Transmit(c) => return Flow::Transmit(c),
        Flow::Done(Err(()), m) => return Flow::Done((None, s), m),
        Flow::Done(Ok(raw), m) => (raw, m),
    };
    match next(&raw, 0) {
        Ok((t, _)) => {
            proof { lemma_decoded(t, raw@, 0); lemma_tlv_bounds(raw@, 0); }
            let end = t.hdr_len + t.val.len();
            raw.truncate(end);
        },
        Err(_) => trim_padding(&mut raw),
    }
    if raw.len() == 0 {
        Flow::Done((None, s), m)
    } else {
        Flow::Done((Some(raw), s), m)
    }
}

/// The public key from the records read: modulus bytes cut to `mb` and put
/// back in word order, the exponent from bytes 1..5 of the exponent record
/// without leading zeros; `None` when that record is short or the exponent zero.
pub open spec fn pubkey_result(raw: Seq<u8>, mb: int, er: Seq<u8>) -> Option<(Seq<u8>, Seq<u8>)> {
    if er.len() < 5 {
        None
    } else {
        let e = strip_leading_zeros(er.subrange(1, 5));
        if e.len() == 0 { None } else { Some((reverse_words_value(raw.take(mb)), e)) }
    }
}

/// Reading modulus records from `record` on (each 129 bytes asked for, the
/// leading record number dropped) until `mb` bytes are there; a record of
/// one byte or less, a failed read, or running past record 255 gives `None`.
pub open spec fn pubkey_from(st: CardState, record: u8, raw: Seq<u8>, mb: int, er: Seq<u8>, log: Seq<Option<Response>>, at: int)
    -> SFlow<(Option<(Seq<u8>, Seq<u8>)>, CardState)>
    decreases 256 - record,
{
    if raw.len() >= mb {
        SFlow::Done((pubkey_result(raw, mb, er), st), at)
    } else {
        match spec_read_record(st, record, PUBKEY_RECORD_LEN as int, log, at) {
            SFlow::Transmit(c) => SFlow::Transmit(c),
            SFlow::Done(Err(_), n) => SFlow::Done((None, st), n),
            SFlow::Done(Ok(chunk), n) => if chunk.len() <= 1 || record == 255 {
                SFlow::Done((None, st), n)
            } else {
                pubkey_from(st, (record + 1) as u8, raw + chunk.drop_first(), mb, er, log, n)
            },
        }
    }
}

/// The modulus bytes as the key EF stores them: `raw`, then the bytes of
/// each record from `record` on after its record number, until `mb` bytes
/// are there; empty where the records run out first.
pub open spec fn stored_modulus(st: CardState, record: u8, raw: Seq<u8>, mb: int, log: Seq<Option<Response>>, at: int) -> Seq<u8>
    decreases 256 - record,
{
    if raw.len() >= mb {
        raw
    } else {
        match spec_read_record(st, record, PUBKEY_RECORD_LEN as int, log, at) {
            SFlow::Done(Ok(chunk), n) => if chunk.len() <= 1 || record == 255 {
                Seq::empty()
            } else {
                stored_modulus(st, (record + 1) as u8, raw + chunk.drop_first(), mb, log, n)
            },
            _ => Seq::empty(),
        }
    }
}

/// A public key read from the key EF has a modulus of `mb` bytes whose
/// `k`-th 32-bit word is the `k`-th word from the end of the stored bytes
/// (bytes short of a word, at the front of the stored ones, come last), and
/// the exponent of bytes 1..5 of the exponent record without leading zeros.
pub proof fn lemma_pubkey_modulus_words(
    st: CardState,
    record: u8,
    raw: Seq<u8>,
    mb: int,
    er: Seq<u8>,
    log: Seq<Option<Response>>,
    at: int,
)
    requires
        mb >= 0,
    ensures
        pubkey_from(st, record, raw, mb, er, log, at) matches SFlow::Done((Some((m, e)), _), _) ==> {
            let b = stored_modulus(st, record, raw, mb, log, at);
            let w = mb - mb % 4;
            &&& b.len() >= mb
            &&& m.len() == mb
            &&& forall|i: int| 0 <= i < w ==> #[trigger] m[i] == b[mb - 4 * (i / 4) - 4 + i % 4]
            &&& forall|i: int| w <= i < mb ==> #[trigger] m[i] == b[i - w]
            &&& e == strip_leading_zeros(er.subrange(1, 5))
        },
    decreases 256 - record,
{
    if raw.len() >= mb {
        let s = raw.take(mb);
        lemma_reverse_words_places(s);
    } else {
        match spec_read_record(st, record, PUBKEY_RECORD_LEN as int, log, at) {
            SFlow::Done(Ok(chunk), n) => if chunk.len() > 1 && record != 255 {
                lemma_pubkey_modulus_words(st, (record + 1) as u8, raw + chunk.drop_first(), mb, er, log, n);
            },
            _ => {},
        }
    }
}

/// An RSA public key from the record-structured key EF: record `key_ref`
/// holds the exponent, `key_ref + 2` onwards the modulus.
#[verifier::opaque]
pub open spec fn spec_read_pubkey_records(st: CardState, path: PathModel, key_ref: u8, mb: int, log: Seq<Option<Response>>, at: int)
    -> SFlow<(Option<(Seq<u8>, Seq<u8>)>, CardState)> {
    then(
        spec_select_ef(st, path.bytes, log, at),
        |v: (Result<(), ()>, CardState), n: int| if v.0 is Err {
            SFlow::Done((None, v.1), n)
        } else {
            then(
                spec_read_record(v.1, key_ref, PUBKEY_RECORD_LEN as int, log, n),
                |e: Result<Seq<u8>, ()>, n2: int| match e {
                    Err(_) => SFlow::Done((None, v.1), n2),
                    Ok(er) => if key_ref as int + PUBKEY_MODULUS_RECORD as int > 255 {
                        SFlow::Done((None, v.1), n2)
                    } else {
                        pubkey_from(v.1, (key_ref + PUBKEY_MODULUS_RECORD) as u8, Seq::empty(), mb, er, log, n2)
                    },
                },
            )
        },
    )
}

/// A public key with the card state, and what it describes.
pub open spec fn same_key_card(a: (Option<(Vec<u8>, Vec<u8>)>, CardState), b: (Option<(Seq<u8>, Seq<u8>)>, CardState)) -> bool {
    &&& a.1 == b.1
    &&& match (a.0, b.0) {
        (Some((m, e)), Some((m2, e2))) => m@ == m2 && e@ == e2,
        (None, None) => true,
        _ => false,
    }
}

pub fn read_pubkey_records(st: &CardState, path: &PathSpec, key_ref: u8, modulus_bytes: usize, log: &[Option<Response>], at: usize)
    -> (r: Flow<(Option<(Vec<u8>, Vec<u8>)>, CardState)>)
    requires
        at <= log@.len(),
    ensures
        flow_matches(
            r,
            spec_read_pubkey_records(*st, PathModel { bytes: path.bytes@, index: path.index, length: path.length }, key_ref, modulus_bytes as int, log@, at as int),
            |a, b| same_key_card(a, b),
        ),
        flow_within(r, at as int, log@.len() as int),
{
    reveal(spec_read_pubkey_records);
    let (s, n) = match select_ef(st, &path.bytes, log, at) {
        Flow::Transmit(c) => return Flow::Transmit(c),
        Flow::Done((Err(()), s), n) => return Flow::Done((None, s), n),
        Flow::Done((Ok(()), s), n) => (s, n),
    };
    let (er, n2) = match read_record(&s, key_ref, PUBKEY_RECORD_LEN, log, n) {
        Flow::Transmit(c) => return Flow::Transmit(c),
        Flow::Done(Err(()), m) => return Flow::Done((None, s), m),
        Flow::Done(Ok(e), m) => (e, m),
    };
    if key_ref > 255 - PUBKEY_MODULUS_RECORD {
        return Flow::Done((None, s), n2);
    }
    let mut record: u8 = key_ref + PUBKEY_MODULUS_RECORD;
    let mut raw: Vec<u8> = Vec::new();
    let mut pos = n2;
    let ghost goal = spec_read_pubkey_records(*st, PathModel { bytes: path.bytes@, index: path.index, length: path.length }, key_ref, modulus_bytes as int, log@, at as int);
    assert(raw@ =~= Seq::<u8>::empty());
    while raw.len() < modulus_bytes
        invariant
            at <= pos <= log@.len(),
            goal == spec_read_pubkey_records(*st, PathModel { bytes: path.bytes@, index: path.index, length: path.length }, key_ref, modulus_bytes as int, log@, at as int),
            goal == pubkey_from(s, record, raw@, modulus_bytes as int, er@, log@, pos as int),
        decreases 256 - record,
    {
        let (chunk, m) = match read_record(&s, record, PUBKEY_RECORD_LEN, log, pos) {
            Flow::Transmit(c) => return Flow::Transmit(c),
            Flow::Done(Err(()), m) => return Flow::Done((None, s), m),
            Flow::Done(Ok(c), m) => (c, m),
        };
        pos = m;
        if chunk.len() <= 1 || record == 255 {
            return Flow::Done((None, s), pos);
        }
        let ghost old_raw = raw@;
        raw.extend_from_slice(vstd::slice::slice_subrange(chunk.as_slice(), 1, chunk.len()));
        assert(raw@ =~= old_raw + chunk@.drop_first());
        record = record + 1;
    }
    raw.truncate(modulus_bytes);
    if er.len() < 5 {
        return Flow::Done((None, s), pos);
    }
    let exponent = trim_leading_zeros(vstd::slice::slice_subrange(er.as_slice(), 1, 5));
    if exponent.len() == 0 {
        return Flow::Done((None, s), pos);
    }
    Flow::Done((Some((reverse_words(&raw), exponent)), s), pos)
}

/// The path of an object as a model.
pub open spec fn opt_path_model(p: Option<PathSpec>) -> Option<PathModel> {
    match p {
        Some(x) => Some(PathModel { bytes: x.bytes@, index: x.index, length: x.length }),
        None => None,
    }
}

/// The path model a record points to.
pub open spec fn record_path_model(val: Seq<u8>) -> Option<PathModel> {
    match entry_parts(val) {
        Some((a, b, c)) => type_attrs_path_value(c.tag, tlv_val(val, c)),
        None => None,
    }
}

/// Completing one object from the card: a public key with a path and a
/// key reference gets its key from the key EF (`modulusLength / 8` bytes,
/// 256 when not given); a certificate its value and the fields parsed from
/// it; a data object its value.
#[verifier::opaque]
pub open spec fn object_step(kind: DirKind, st: CardState, o: ObjModel, path: Option<PathModel>, log: Seq<Option<Response>>, at: int)
    -> SFlow<(ObjModel, CardState)> {
    match path {
        None => SFlow::Done((o, st), at),
        Some(p) => match kind {
            DirKind::PrKdf => SFlow::Done((o, st), at),
            DirKind::PuKdf => if o.key_ref < 0 { SFlow::Done((o, st), at) } else { pubkey_step(st, o, p, log, at) },
            DirKind::Cdf => value_step(true, st, o, p, log, at),
            DirKind::Dodf => value_step(false, st, o, p, log, at),
        },
    }
}

/// An object with the card state, and what it describes.
pub open spec fn same_obj_card(a: (TokenObject, CardState), b: (ObjModel, CardState)) -> bool {
    a.0@ == b.0 && a.1 == b.1
}

/// A public key object with its key read from the card.
pub open spec fn pubkey_step(st: CardState, o: ObjModel, p: PathModel, log: Seq<Option<Response>>, at: int) -> SFlow<(ObjModel, CardState)> {
    let w = (o.modulus_bits / 8) as usize;
    let want: int = if w == 0 { 2 * PUBKEY_COMPONENT_LEN as int } else { w as int };
    then(
        spec_read_pubkey_records(st, p, o.key_ref as u8, want, log, at),
        |v: (Option<(Seq<u8>, Seq<u8>)>, CardState), n: int| SFlow::Done((with_key(o, v.0), v.1), n),
    )
}

/// `o` with the public key read, if one was.
pub open spec fn with_key(o: ObjModel, k: Option<(Seq<u8>, Seq<u8>)>) -> ObjModel {
    match k {
        Some((m, e)) => ObjModel { modulus_bits: modulus_bits_value(m) as u64, modulus: m, pubexp: e, ..o },
        None => o,
    }
}

#[verifier::rlimit(60)]
fn complete_pubkey(st: &CardState, obj: TokenObject, p: &PathSpec, log: &[Option<Response>], at: usize) -> (r: Flow<(TokenObject, CardState)>)
    requires
        at <= log@.len(),
        obj.key_ref >= 0,
    ensures
        flow_matches(r, pubkey_step(*st, obj@, PathModel { bytes: p.bytes@, index: p.index, length: p.length }, log@, at as int), |a, b| same_obj_card(a, b)),
        flow_within(r, at as int, log@.len() as int),
{
    let ghost before = obj@;
    let mut obj = obj;
    let w = (obj.modulus_bits / 8) as usize;
    let want = if w == 0 { 2 * PUBKEY_COMPONENT_LEN } else { w };
    match read_pubkey_records(st, p, obj.key_ref as u8, want, log, at) {
        Flow::Transmit(c) => Flow::Transmit(c),
        Flow::Done((Some((m, e)), s), n) => {
            obj.modulus_bits = modulus_bit_len(&m);
            obj.modulus = m;
            obj.pubexp = e;
            assert(obj@ =~= with_key(before, Some((m@, e@))));
            Flow::Done((obj, s), n)
        },
        Flow::Done((None, s), n) => Flow::Done((obj, s), n),
    }
}

/// A certificate or data object with its value read from the card (a
/// certificate also gets the fields parsed from it).
pub open spec fn value_step(cert: bool, st: CardState, o: ObjModel, p: PathModel, log: Seq<Option<Response>>, at: int) -> SFlow<(ObjModel, CardState)> {
    then(
        spec_read_object_value(st, p, log, at),
        |v: (Option<Seq<u8>>, CardState), n: int| match v.0 {
            Some(val) => SFlow::Done((ObjModel { data: val, ..(if cert { cert_model(o, val) } else { o }) }, v.1), n),
            None => SFlow::Done((o, v.1), n),
        },
    )
}

fn complete_value(cert: bool, st: &CardState, obj: TokenObject, p: &PathSpec, log: &[Option<Response>], at: usize) -> (r: Flow<(TokenObject, CardState)>)
    requires
        at <= log@.len(),
    ensures
        flow_matches(r, value_step(cert, *st, obj@, PathModel { bytes: p.bytes@, index: p.index, length: p.length }, log@, at as int), |a, b| same_obj_card(a, b)),
        flow_within(r, at as int, log@.len() as int),
{
    let mut obj = obj;
    match read_object_value(st, p, log, at) {
        Flow::Transmit(c) => Flow::Transmit(c),
        Flow::Done((Some(value), s), n) => {
            let ghost before = obj;
            if cert {
                parse_cert_fields(&value, &mut obj);
                proof { lemma_cert_model(before, obj, value@); }
            }
            let ghost mid = obj@;
            obj.data = value;
            assert(obj@ =~= (ObjModel { data: value@, ..mid }));
            Flow::Done((obj, s), n)
        },
        Flow::Done((None, s), n) => Flow::Done((obj, s), n),
    }
}

fn complete_object(kind: DirKind, st: &CardState, obj: TokenObject, path: &Option<PathSpec>, log: &[Option<Response>], at: usize)
    -> (r: Flow<(TokenObject, CardState)>)
    requires
        at <= log@.len(),
    ensures
        flow_matches(r, object_step(kind, *st, obj@, opt_path_model(*path), log@, at as int), |a, b| same_obj_card(a, b)),
        flow_within(r, at as int, log@.len() as int),
{
    reveal(object_step);
    let p = match path {
        None => return Flow::Done((obj, *st), at),
        Some(p) => p,
    };
    match kind {
        DirKind::PrKdf => Flow::Done((obj, *st), at),
        DirKind::PuKdf => if obj.key_ref < 0 {
            Flow::Done((obj, *st), at)
        } else {
            complete_pubkey(st, obj, p, log, at)
        },
        DirKind::Cdf => complete_value(true, st, obj, p, log, at),
        DirKind::Dodf => complete_value(false, st, obj, p, log, at),
    }
}

/// Completing objects `i..` from the card in turn, `acc` holding those done.
pub open spec fn objects_from(
    kind: DirKind,
    st: CardState,
    objs: Seq<ObjModel>,
    paths: Seq<Option<PathModel>>,
    i: int,
    acc: Seq<ObjModel>,
    log: Seq<Option<Response>>,
    at: int,
) -> SFlow<(Seq<ObjModel>, CardState)>
    decreases objs.len() - i,
{
    if i < 0 || i >= objs.len() {
        SFlow::Done((acc, st), at)
    } else {
        match object_step(kind, st, objs[i], paths[i], log, at) {
            SFlow::Transmit(c) => SFlow::Transmit(c),
            SFlow::Done((o, s), n) => objects_from(kind, s, objs, paths, i + 1, acc.push(o), log, n),
        }
    }
}

/// A directory file of `kind` read into the token: its records become
/// objects numbered on from those held (up to [`MAX_OBJS`] in all), each
/// completed from the card in turn.
pub open spec fn spec_parse_directory(kind: DirKind, st: CardState, tok: TokenModel, buf: Seq<u8>, log: Seq<Option<Response>>, at: int)
    -> SFlow<(TokenModel, CardState)> {
    let n = tok.objs.len() as int;
    let es = entries_from(buf, 0, room_for(n));
    let objs = Seq::new(es.len(), |k: int| record_model(kind, tlv_val(buf, es[k]), (n + k + 1) as u64));
    let paths = Seq::new(es.len(), |k: int| record_path_model(tlv_val(buf, es[k])));
    then(
        objects_from(kind, st, objs, paths, 0, Seq::empty(), log, at),
        |v: (Seq<ObjModel>, CardState), m: int| SFlow::Done((TokenModel { objs: tok.objs + v.0, ..tok }, v.1), m),
    )
}

/// A token with the card state, and what it describes.
pub open spec fn same_token_card(a: (Token, CardState), b: (TokenModel, CardState)) -> bool {
    a.0@ == b.0 && a.1 == b.1
}

proof fn lemma_path_model(kind: DirKind, p: Option<PathSpec>, val: Seq<u8>)
    requires
        record_path(kind, p, val),
        kind != DirKind::PrKdf,
    ensures
        opt_path_model(p) == record_path_model(val),
{
}

/// Read the objects of a directory file of `kind` into the token.
#[verifier::loop_isolation(false)]
pub fn parse_directory(kind: DirKind, st: &CardState, tok: Token, buf: &[u8], log: &[Option<Response>], at: usize)
    -> (r: Flow<(Token, CardState)>)
    requires
        at <= log@.len(),
    ensures
        flow_matches(r, spec_parse_directory(kind, *st, tok@, buf@, log@, at as int), |a, b| same_token_card(a, b)),
        flow_within(r, at as int, log@.len() as int),
{
    let mut tok = tok;
    let ghost t0 = tok@;
    let rm = room(&tok);
    let base = tok.objs.len();
    let (mut objs, mut paths) = directory_entries(kind, buf, rm, base);
    let ghost n = base as int;
    let ghost es = entries_from(buf@, 0, rm as int);
    let ghost objs_m = Seq::new(es.len(), |k: int| record_model(kind, tlv_val(buf@, es[k]), (n + k + 1) as u64));
    let ghost paths_m = Seq::new(es.len(), |k: int| record_path_model(tlv_val(buf@, es[k])));
    proof {
        assert forall|k: int| 0 <= k < es.len() implies #[trigger] objs@[k]@ == objs_m[k] by {
            assert(entry_ok(kind, objs@[k], paths@[k], buf@, es[k], base + k + 1));
            lemma_record_model(kind, objs@[k], tlv_val(buf@, es[k]));
        }
        if kind != DirKind::PrKdf {
            assert forall|k: int| 0 <= k < es.len() implies #[trigger] opt_path_model(paths@[k]) == paths_m[k] by {
                assert(entry_ok(kind, objs@[k], paths@[k], buf@, es[k], base + k + 1));
                lemma_path_model(kind, paths@[k], tlv_val(buf@, es[k]));
            }
        }
    }
    let ghost goal = spec_parse_directory(kind, *st, t0, buf@, log@, at as int);
    let mut s = *st;
    let mut pos = at;
    let ghost mut i: int = 0;
    let ghost mut acc: Seq<ObjModel> = Seq::empty();
    assert(obj_models(tok.objs@) =~= t0.objs + acc);
    while objs.len() > 0
        invariant
            at <= pos <= log@.len(),
            0 <= i <= es.len(),
            objs@.len() == paths@.len() == es.len() - i,
            forall|k: int| 0 <= k < objs@.len() ==> #[trigger] objs@[k]@ == objs_m[i + k],
            kind != DirKind::PrKdf ==> forall|k: int| 0 <= k < paths@.len() ==> #[trigger] opt_path_model(paths@[k]) == paths_m[i + k],
            objs_m.len() == es.len() && paths_m.len() == es.len(),
            tok@ == (TokenModel { objs: t0.objs + acc, ..t0 }),
            goal == then(
                objects_from(kind, s, objs_m, paths_m, i, acc, log@, pos as int),
                |v: (Seq<ObjModel>, CardState), m: int| SFlow::Done((TokenModel { objs: t0.objs + v.0, ..t0 }, v.1), m),
            ),
        decreases objs@.len(),
    {
        let ghost objs_before = objs@;
        let ghost paths_before = paths@;
        let o = objs.remove(0);
        let p = paths.remove(0);
        proof {
            assert(objs_before[0]@ == objs_m[i]);
            assert(o@ == objs_m[i]);
            assert forall|k: int| 0 <= k < objs@.len() implies #[trigger] objs@[k]@ == objs_m[i + 1 + k] by {
                assert(objs@[k] == objs_before[k + 1]);
            }
            if kind != DirKind::PrKdf {
                assert(opt_path_model(paths_before[0]) == paths_m[i]);
                assert forall|k: int| 0 <= k < paths@.len() implies #[trigger] opt_path_model(paths@[k]) == paths_m[i + 1 + k] by {
                    assert(paths@[k] == paths_before[k + 1]);
                }
            }
        }
        assert(object_step(kind, s, objs_m[i], paths_m[i], log@, pos as int) == object_step(kind, s, o@, opt_path_model(p), log@, pos as int)) by {
            reveal(object_step);
        }
        proof {
            let step = object_step(kind, s, objs_m[i], paths_m[i], log@, pos as int);
            assert(objects_from(kind, s, objs_m, paths_m, i, acc, log@, pos as int) == match step {
                SFlow::Transmit(c) => SFlow::Transmit(c),
                SFlow::Done((o2, s3), n3) => objects_from(kind, s3, objs_m, paths_m, i + 1, acc.push(o2), log@, n3),
            });
        }
        match complete_object(kind, &s, o, &p, log, pos) {
            Flow::Transmit(c) => return Flow::Transmit(c),
            Flow::Done((done_obj, s2), m) => {
                let ghost old_objs = tok.objs@;
                let ghost old_acc = acc;
                proof {
                    acc = acc.push(done_obj@);
                    i = i + 1;
                }
                tok.objs.push(done_obj);
                assert(obj_models(tok.objs@) =~= t0.objs + acc) by {
                    assert(obj_models(old_objs) =~= t0.objs + old_acc);
                    assert(obj_models(tok.objs@) =~= obj_models(old_objs).push(done_obj@));
                }
                s = s2;
                pos = m;
            },
        }
    }
    proof {
        assert(tok@ =~= TokenModel { objs: t0.objs + acc, ..t0 });
    }
    Flow::Done((tok, s), pos)
}

/// The EF holding TokenInfo: `3F00 5030 5032`.
pub const TOKENINFO_PATH: [u8; 6] = [0x3F, 0x00, 0x50, 0x30, 0x50, 0x32];
/// The EF holding the card number: `3F00 0900 0903`.
pub const CARD_NUMBER_PATH: [u8; 6] = [0x3F, 0x00, 0x09, 0x00, 0x09, 0x03];
/// The EF holding the card version: `3F00 0900 0905`.
pub const CARD_VERSION_PATH: [u8; 6] = [0x3F, 0x00, 0x09, 0x00, 0x09, 0x05];

/// TokenInfo read into the token: manufacturer and label, when the EF reads.
pub open spec fn spec_read_tokeninfo(st: CardState, tok: TokenModel, log: Seq<Option<Response>>, at: int)
    -> SFlow<(TokenModel, CardState)> {
    then(
        spec_read_ef_path(st, TOKENINFO_PATH@, log, at),
        |v: (Result<Seq<u8>, ()>, CardState), n: int| match v.0 {
            Ok(blob) => SFlow::Done((tokeninfo_model(tok, strip_padding(blob)).1, v.1), n),
            Err(_) => SFlow::Done((tok, v.1), n),
        },
    )
}

pub fn read_hicos_tokeninfo_ef(st: &CardState, tok: Token, log: &[Option<Response>], at: usize) -> (r: Flow<(Token, CardState)>)
    requires
        at <= log@.len(),
    ensures
        flow_matches(r, spec_read_tokeninfo(*st, tok@, log@, at as int), |a, b| same_token_card(a, b)),
        flow_within(r, at as int, log@.len() as int),
{
    let mut tok = tok;
    let path = TOKENINFO_PATH;
    match read_ef_path(st, &path, log, at) {
        Flow::Transmit(c) => Flow::Transmit(c),
        Flow::Done((Ok(mut blob), s), n) => {
            trim_padding(&mut blob);
            let ghost before = tok;
            let ok = parse_tokeninfo(&blob, &mut tok);
            proof { lemma_tokeninfo_model(before, tok, blob@, ok is Ok); }
            Flow::Done((tok, s), n)
        },
        Flow::Done((Err(()), s), n) => Flow::Done((tok, s), n),
    }
}

/// The card number read into the token's serial, unless it is empty.
pub open spec fn spec_read_card_number(st: CardState, tok: TokenModel, log: Seq<Option<Response>>, at: int)
    -> SFlow<(TokenModel, CardState)> {
    then(
        spec_read_ef_bytes(st, CARD_NUMBER_PATH@, 0, 16, log, at),
        |v: (Result<Seq<u8>, ()>, CardState), n: int| match v.0 {
            Ok(buf) => {
                let serial = label_text(buf);
                SFlow::Done((if serial.len() == 0 { tok } else { TokenModel { serial, ..tok } }, v.1), n)
            },
            Err(_) => SFlow::Done((tok, v.1), n),
        },
    )
}

pub fn read_hicos_card_number(st: &CardState, tok: Token, log: &[Option<Response>], at: usize) -> (r: Flow<(Token, CardState)>)
    requires
        at <= log@.len(),
    ensures
        flow_matches(r, spec_read_card_number(*st, tok@, log@, at as int), |a, b| same_token_card(a, b)),
        flow_within(r, at as int, log@.len() as int),
{
    let mut tok = tok;
    let path = CARD_NUMBER_PATH;
    match read_ef_bytes(st, &path, 0, 16, log, at) {
        Flow::Transmit(c) => Flow::Transmit(c),
        Flow::Done((Ok(buf), s), n) => {
            let serial = copy_label(&buf);
            if serial.as_str().unicode_len() > 0 {
                tok.serial = serial;
            }
            Flow::Done((tok, s), n)
        },
        Flow::Done((Err(()), s), n) => Flow::Done((tok, s), n),
    }
}

/// `pat` occurs in `s`.
pub open spec fn has_infix(s: Seq<char>, pat: Seq<char>) -> bool {
    exists|i: int| 0 <= i && i + pat.len() <= s.len() && #[trigger] s.subrange(i, i + pat.len()) == pat
}

/// The model name a card version string gives: `T7S` when it holds `V32`.
pub open spec fn model_name(version: Seq<char>) -> Seq<char> {
    if has_infix(version, seq!['V', '3', '2']) { seq!['T', '7', 'S'] } else { seq!['H', 'i', 'C', 'O', 'S'] }
}

fn has_v32(s: &str) -> (b: bool)
    ensures
        b == has_infix(s@, seq!['V', '3', '2']),
{
    let n = s.unicode_len();
    if n < 3 {
        assert(!has_infix(s@, seq!['V', '3', '2']));
        return false;
    }
    let mut i: usize = 0;
    while i <= n - 3
        invariant
            n == s@.len(),
            n >= 3,
            i <= n - 2,
            forall|j: int| 0 <= j < i ==> #[trigger] s@.subrange(j, j + 3) != seq!['V', '3', '2'],
        decreases n - i,
    {
        if s.get_char(i) == 'V' && s.get_char(i + 1) == '3' && s.get_char(i + 2) == '2' {
            assert(s@.subrange(i as int, i + 3) =~= seq!['V', '3', '2']);
            return true;
        }
        assert(s@.subrange(i as int, i + 3)[0] == s@[i as int]);
        assert(s@.subrange(i as int, i + 3)[1] == s@[i + 1]);
        assert(s@.subrange(i as int, i + 3)[2] == s@[i + 2]);
        i += 1;
    }
    assert forall|j: int| 0 <= j && j + 3 <= s@.len() implies #[trigger] s@.subrange(j, j + 3) != seq!['V', '3', '2'] by {}
    false
}

/// The card version read into the token's model name.
pub open spec fn spec_read_model(st: CardState, tok: TokenModel, log: Seq<Option<Response>>, at: int)
    -> SFlow<(TokenModel, CardState)> {
    then(
        spec_read_ef_bytes(st, CARD_VERSION_PATH@, 0, 24, log, at),
        |v: (Result<Seq<u8>, ()>, CardState), n: int| match v.0 {
            Ok(buf) => SFlow::Done((TokenModel { model: model_name(crate::text::utf8_lossy_value(buf)), ..tok }, v.1), n),
            Err(_) => SFlow::Done((tok, v.1), n),
        },
    )
}

pub fn read_hicos_model(st: &CardState, tok: Token, log: &[Option<Response>], at: usize) -> (r: Flow<(Token, CardState)>)
    requires
        at <= log@.len(),
    ensures
        flow_matches(r, spec_read_model(*st, tok@, log@, at as int), |a, b| same_token_card(a, b)),
        flow_within(r, at as int, log@.len() as int),
{
    let mut tok = tok;
    let path = CARD_VERSION_PATH;
    match read_ef_bytes(st, &path, 0, 24, log, at) {
        Flow::Transmit(c) => Flow::Transmit(c),
        Flow::Done((Ok(buf), s), n) => {
            let version = crate::text::utf8_lossy(&buf);
            let t7s = "T7S";
            let hicos = "HiCOS";
            proof {
                reveal_strlit("T7S");
                reveal_strlit("HiCOS");
            }
            tok.model = if has_v32(version.as_str()) { t7s.to_owned() } else { hicos.to_owned() };
            assert(tok.model@ =~= model_name(version@));
            Flow::Done((tok, s), n)
        },
        Flow::Done((Err(()), s), n) => Flow::Done((tok, s), n),
    }
}

/// The PIN reference the AODF gives, read into the token.
pub open spec fn spec_read_aodf(st: CardState, tok: TokenModel, log: Seq<Option<Response>>, at: int) -> SFlow<(TokenModel, CardState)> {
    then(
        spec_read_directory_file(st, FID_AODF, log, at),
        |v: (Result<Seq<u8>, ()>, CardState), n: int| SFlow::Done((
            match v.0 {
                Ok(buf) => match aodf_pin_from(buf, 0) {
                    Some(pr) => TokenModel { pin_ref: pr, ..tok },
                    None => tok,
                },
                Err(_) => tok,
            },
            v.1,
        ), n),
    )
}

/// The token after parsing PrKDF `buf` (see [`parse_prkdf`]).
pub open spec fn prkdf_model(tok: TokenModel, buf: Seq<u8>) -> TokenModel {
    let n = tok.objs.len() as int;
    let es = entries_from(buf, 0, room_for(n));
    TokenModel { objs: tok.objs + Seq::new(es.len(), |k: int| record_model(DirKind::PrKdf, tlv_val(buf, es[k]), (n + k + 1) as u64)), ..tok }
}

/// The private keys of the PrKDF read into the token.
pub open spec fn spec_read_prkdf(st: CardState, tok: TokenModel, log: Seq<Option<Response>>, at: int) -> SFlow<(TokenModel, CardState)> {
    then(
        spec_read_directory_file(st, FID_PRKDF, log, at),
        |v: (Result<Seq<u8>, ()>, CardState), n: int| SFlow::Done((
            match v.0 {
                Ok(buf) => prkdf_model(tok, buf),
                Err(_) => tok,
            },
            v.1,
        ), n),
    )
}

/// The objects of directory file `fid` read into the token, completed from the card.
pub open spec fn spec_read_dir_objects(kind: DirKind, fid: u16, st: CardState, tok: TokenModel, log: Seq<Option<Response>>, at: int)
    -> SFlow<(TokenModel, CardState)> {
    then(
        spec_read_directory_file(st, fid, log, at),
        |v: (Result<Seq<u8>, ()>, CardState), n: int| match v.0 {
            Ok(buf) => spec_parse_directory(kind, v.1, tok, buf, log, n),
            Err(_) => SFlow::Done((tok, v.1), n),
        },
    )
}

/// All objects: the PIN reference from the AODF, then PrKDF, PuKDF, CDF
/// and DODF in that order.
pub open spec fn spec_read_objects(st: CardState, tok: TokenModel, log: Seq<Option<Response>>, at: int) -> SFlow<(TokenModel, CardState)> {
    then(
        spec_read_aodf(st, tok, log, at),
        |a: (TokenModel, CardState), n1: int| then(
            spec_read_prkdf(a.1, a.0, log, n1),
            |b: (TokenModel, CardState), n2: int| then(
                spec_read_dir_objects(DirKind::PuKdf, FID_PUKDF, b.1, b.0, log, n2),
                |c: (TokenModel, CardState), n3: int| then(
                    spec_read_dir_objects(DirKind::Cdf, FID_CDF, c.1, c.0, log, n3),
                    |d: (TokenModel, CardState), n4: int| spec_read_dir_objects(DirKind::Dodf, FID_DODF, d.1, d.0, log, n4),
                ),
            ),
        ),
    )
}

fn read_aodf(st: &CardState, tok: Token, log: &[Option<Response>], at: usize) -> (r: Flow<(Token, CardState)>)
    requires
        at <= log@.len(),
    ensures
        flow_matches(r, spec_read_aodf(*st, tok@, log@, at as int), |a, b| same_token_card(a, b)),
        flow_within(r, at as int, log@.len() as int),
{
    let mut tok = tok;
    match read_directory_file(st, FID_AODF, log, at) {
        Flow::Transmit(c) => Flow::Transmit(c),
        Flow::Done((Ok(buf), s), n) => {
            match parse_aodf_pin(&buf) {
                Some(pr) => tok.pin_ref = pr,
                None => {},
            }
            Flow::Done((tok, s), n)
        },
        Flow::Done((Err(()), s), n) => Flow::Done((tok, s), n),
    }
}

fn read_prkdf(st: &CardState, tok: Token, log: &[Option<Response>], at: usize) -> (r: Flow<(Token, CardState)>)
    requires
        at <= log@.len(),
    ensures
        flow_matches(r, spec_read_prkdf(*st, tok@, log@, at as int), |a, b| same_token_card(a, b)),
        flow_within(r, at as int, log@.len() as int),
{
    let mut tok = tok;
    match read_directory_file(st, FID_PRKDF, log, at) {
        Flow::Transmit(c) => Flow::Transmit(c),
        Flow::Done((Ok(buf), s), n) => {
            let ghost before = tok;
            parse_prkdf(&mut tok, &buf);
            proof {
                let m = before.objs@.len() as int;
                let es = entries_from(buf@, 0, room_for(m));
                let added = Seq::new(es.len(), |k: int| record_model(DirKind::PrKdf, tlv_val(buf@, es[k]), (m + k + 1) as u64));
                assert forall|i: int| 0 <= i < tok.objs@.len() implies #[trigger] obj_models(tok.objs@)[i] == (before@.objs + added)[i] by {
                    if i >= m {
                        let k = i - m;
                        assert(tok.objs@[m + k] == tok.objs@[i]);
                        lemma_record_model(DirKind::PrKdf, tok.objs@[i], tlv_val(buf@, es[k]));
                    } else {
                        assert(tok.objs@[i] == before.objs@[i]);
                    }
                }
                assert(obj_models(tok.objs@) =~= before@.objs + added);
                assert(tok@ =~= prkdf_model(before@, buf@));
            }
            Flow::Done((tok, s), n)
        },
        Flow::Done((Err(()), s), n) => Flow::Done((tok, s), n),
    }
}

fn read_dir_objects(kind: DirKind, fid: u16, st: &CardState, tok: Token, log: &[Option<Response>], at: usize) -> (r: Flow<(Token, CardState)>)
    requires
        at <= log@.len(),
    ensures
        flow_matches(r, spec_read_dir_objects(kind, fid, *st, tok@, log@, at as int), |a, b| same_token_card(a, b)),
        flow_within(r, at as int, log@.len() as int),
{
    match read_directory_file(st, fid, log, at) {
        Flow::Transmit(c) => Flow::Transmit(c),
        Flow::Done((Ok(buf), s), n) => parse_directory(kind, &s, tok, &buf, log, n),
        Flow::Done((Err(()), s), n) => Flow::Done((tok, s), n),
    }
}

/// Read all objects of the card into the token.
pub fn read_objects(st: &CardState, tok: Token, log: &[Option<Response>], at: usize) -> (r: Flow<(Token, CardState)>)
    requires
        at <= log@.len(),
    ensures
        flow_matches(r, spec_read_objects(*st, tok@, log@, at as int), |a, b| same_token_card(a, b)),
        flow_within(r, at as int, log@.len() as int),
{
    let (t1, s1, n1) = match read_aodf(st, tok, log, at) {
        Flow::Transmit(c) => return Flow::Transmit(c),
        Flow::Done((t, s), n) => (t, s, n),
    };
    let (t2, s2, n2) = match read_prkdf(&s1, t1, log, n1) {
        Flow::Transmit(c) => return Flow::Transmit(c),
        Flow::Done((t, s), n) => (t, s, n),
    };
    let (t3, s3, n3) = match read_dir_objects(DirKind::PuKdf, FID_PUKDF, &s2, t2, log, n2) {
        Flow::Transmit(c) => return Flow::Transmit(c),
        Flow::Done((t, s), n) => (t, s, n),
    };
    let (t4, s4, n4) = match read_dir_objects(DirKind::Cdf, FID_CDF, &s3, t3, log, n3) {
        Flow::Transmit(c) => return Flow::Transmit(c),
        Flow::Done((t, s), n) => (t, s, n),
    };
    read_dir_objects(DirKind::Dodf, FID_DODF, &s4, t4, log, n4)
}

/// The unbound token.
pub open spec fn default_token_model() -> TokenModel {
    TokenModel {
        bound: false,
        label: default_label(),
        manufacturer: default_manufacturer(),
        model: seq!['H', 'i', 'C', 'O', 'S'],
        serial: Seq::new(16, |i: int| '0'),
        min_pin: 6,
        max_pin: 8,
        pin_ref: 0,
        objs: Seq::empty(),
    }
}

/// Binding a card: from the default token, SELECT MF (its outcome does not
/// matter), TokenInfo, card number, model, all objects; then private keys
/// take their public material from matching public keys or certificates,
/// and the token is bound.
pub open spec fn spec_bind(st: CardState, log: Seq<Option<Response>>, at: int) -> SFlow<(TokenModel, CardState)> {
    then(
        spec_select_mf(st, log, at),
        |v: (Result<(), ()>, CardState), n: int| then(
            spec_read_tokeninfo(v.1, default_token_model(), log, n),
            |a: (TokenModel, CardState), n1: int| then(
                spec_read_card_number(a.1, a.0, log, n1),
                |b: (TokenModel, CardState), n2: int| then(
                    spec_read_model(b.1, b.0, log, n2),
                    |c: (TokenModel, CardState), n3: int| then(
                        spec_read_objects(c.1, c.0, log, n3),
                        |d: (TokenModel, CardState), n4: int| SFlow::Done((TokenModel { objs: linked_models(d.0.objs), bound: true, ..d.0 }, d.1), n4),
                    ),
                ),
            ),
        ),
    )
}

/// Objects numbered 1 to n in the order found, at most [`MAX_OBJS`] of
/// them, and PIN lengths from 6 to 8.
pub open spec fn well_numbered(t: TokenModel) -> bool {
    &&& t.objs.len() <= MAX_OBJS
    &&& forall|i: int| 0 <= i < t.objs.len() ==> #[trigger] t.objs[i].handle == i + 1
    &&& t.min_pin == 6 && t.max_pin == 8
}

proof fn lemma_entries_room(buf: Seq<u8>, off: int, room: int)
    ensures
        entries_from(buf, off, room).len() <= if room > 0 { room } else { 0 },
    decreases buf.len() - off,
{
    if !(off < 0 || off >= buf.len() || buf[off] == 0x00 || buf[off] == 0xFF) {
        crate::der::lemma_tlv_bounds(buf, off);
        match tlv_at(buf, off) {
            None => {},
            Some(e) => {
                lemma_entries_room(buf, tlv_end(e), room - 1);
                lemma_entries_room(buf, tlv_end(e), room);
            },
        }
    }
}

proof fn lemma_object_step_handle(kind: DirKind, st: CardState, o: ObjModel, path: Option<PathModel>, log: Seq<Option<Response>>, at: int)
    ensures
        object_step(kind, st, o, path, log, at) matches SFlow::Done((p, s), n) ==> p.handle == o.handle,
{
    reveal(object_step);
    reveal(cert_model);
    match path {
        None => {},
        Some(pm) => {
            let w = (o.modulus_bits / 8) as usize;
            let want: int = if w == 0 { 2 * PUBKEY_COMPONENT_LEN as int } else { w as int };
            match spec_read_pubkey_records(st, pm, o.key_ref as u8, want, log, at) {
                SFlow::Transmit(_) => {},
                SFlow::Done(v, n) => {},
            }
            match spec_read_object_value(st, pm, log, at) {
                SFlow::Transmit(_) => {},
                SFlow::Done(v, n) => {},
            }
        },
    }
}

proof fn lemma_objects_from_handles(
    kind: DirKind,
    st: CardState,
    objs: Seq<ObjModel>,
    paths: Seq<Option<PathModel>>,
    i: int,
    acc: Seq<ObjModel>,
    log: Seq<Option<Response>>,
    at: int,
)
    requires
        0 <= i <= objs.len(),
    ensures
        objects_from(kind, st, objs, paths, i, acc, log, at) matches SFlow::Done((v, s), m) ==> {
            &&& v.len() == acc.len() + objs.len() - i
            &&& forall|k: int| 0 <= k < acc.len() ==> #[trigger] v[k].handle == acc[k].handle
            &&& forall|k: int| i <= k < objs.len() ==> #[trigger] v[acc.len() + k - i].handle == objs[k].handle
        },
    decreases objs.len() - i,
{
    if i < objs.len() {
        lemma_object_step_handle(kind, st, objs[i], paths[i], log, at);
        match object_step(kind, st, objs[i], paths[i], log, at) {
            SFlow::Transmit(_) => {},
            SFlow::Done((o, s), n) => {
                lemma_objects_from_handles(kind, s, objs, paths, i + 1, acc.push(o), log, n);
                match objects_from(kind, s, objs, paths, i + 1, acc.push(o), log, n) {
                    SFlow::Transmit(_) => {},
                    SFlow::Done((v, s2), m) => {
                        assert forall|k: int| 0 <= k < acc.len() implies #[trigger] v[k].handle == acc[k].handle by {
                            assert(acc.push(o)[k] == acc[k]);
                        }
                        assert forall|k: int| i <= k < objs.len() implies #[trigger] v[acc.len() + k - i].handle == objs[k].handle by {
                            if k == i {
                                assert(acc.push(o)[acc.len() as int] == o);
                                assert(v[acc.len() as int].handle == acc.push(o)[acc.len() as int].handle);
                            } else {
                                assert(v[acc.push(o).len() + k - (i + 1)].handle == objs[k].handle);
                            }
                        }
                    },
                }
            },
        }
    }
}

proof fn lemma_record_handles(kind: DirKind, buf: Seq<u8>, n: int)
    requires
        0 <= n <= MAX_OBJS,
    ensures
        ({
            let es = entries_from(buf, 0, room_for(n));
            &&& n + es.len() <= MAX_OBJS
            &&& forall|k: int| 0 <= k < es.len() ==>
                #[trigger] record_model(kind, tlv_val(buf, es[k]), (n + k + 1) as u64).handle == n + k + 1
        }),
{
    reveal(record_model);
    lemma_entries_room(buf, 0, room_for(n));
}

proof fn lemma_parse_directory_numbered(kind: DirKind, st: CardState, tok: TokenModel, buf: Seq<u8>, log: Seq<Option<Response>>, at: int)
    requires
        well_numbered(tok),
    ensures
        spec_parse_directory(kind, st, tok, buf, log, at) matches SFlow::Done((t, s), m) ==> well_numbered(t),
{
    let n = tok.objs.len() as int;
    let es = entries_from(buf, 0, room_for(n));
    let objs = Seq::new(es.len(), |k: int| record_model(kind, tlv_val(buf, es[k]), (n + k + 1) as u64));
    let paths = Seq::new(es.len(), |k: int| record_path_model(tlv_val(buf, es[k])));
    lemma_record_handles(kind, buf, n);
    lemma_objects_from_handles(kind, st, objs, paths, 0, Seq::empty(), log, at);
    match objects_from(kind, st, objs, paths, 0, Seq::empty(), log, at) {
        SFlow::Transmit(_) => {},
        SFlow::Done((v, s), m) => {
            let all = tok.objs + v;
            assert forall|i: int| 0 <= i < all.len() implies #[trigger] all[i].handle == i + 1 by {
                if i >= n {
                    assert(v[0 + (i - n) - 0].handle == objs[i - n].handle);
                    assert(objs[i - n] == record_model(kind, tlv_val(buf, es[i - n]), (n + (i - n) + 1) as u64));
                }
            }
        },
    }
}

proof fn lemma_read_dir_objects_numbered(kind: DirKind, fid: u16, st: CardState, tok: TokenModel, log: Seq<Option<Response>>, at: int)
    requires
        well_numbered(tok),
    ensures
        spec_read_dir_objects(kind, fid, st, tok, log, at) matches SFlow::Done((t, s), m) ==> well_numbered(t),
{
    match spec_read_directory_file(st, fid, log, at) {
        SFlow::Transmit(_) => {},
        SFlow::Done((r, s1), n) => match r {
            Ok(buf) => lemma_parse_directory_numbered(kind, s1, tok, buf, log, n),
            Err(_) => {},
        },
    }
}

proof fn lemma_read_prkdf_numbered(st: CardState, tok: TokenModel, log: Seq<Option<Response>>, at: int)
    requires
        well_numbered(tok),
    ensures
        spec_read_prkdf(st, tok, log, at) matches SFlow::Done((t, s), m) ==> well_numbered(t),
{
    match spec_read_directory_file(st, FID_PRKDF, log, at) {
        SFlow::Transmit(_) => {},
        SFlow::Done((r, s1), n) => match r {
            Ok(buf) => {
                let k = tok.objs.len() as int;
                let es = entries_from(buf, 0, room_for(k));
                lemma_record_handles(DirKind::PrKdf, buf, k);
                let t = prkdf_model(tok, buf);
                assert forall|i: int| 0 <= i < t.objs.len() implies #[trigger] t.objs[i].handle == i + 1 by {
                    if i >= k {
                        assert(t.objs[i] == record_model(DirKind::PrKdf, tlv_val(buf, es[i - k]), (k + (i - k) + 1) as u64));
                    }
                }
            },
            Err(_) => {},
        },
    }
}

proof fn lemma_read_objects_numbered(st: CardState, tok: TokenModel, log: Seq<Option<Response>>, at: int)
    requires
        well_numbered(tok),
    ensures
        spec_read_objects(st, tok, log, at) matches SFlow::Done((t, s), m) ==> well_numbered(t),
{
    match spec_read_aodf(st, tok, log, at) {
        SFlow::Transmit(_) => {},
        SFlow::Done((a, s1), n1) => {
            assert(well_numbered(a)) by {
                match spec_read_directory_file(st, FID_AODF, log, at) {
                    SFlow::Transmit(_) => {},
                    SFlow::Done(v, n) => {},
                }
            }
            lemma_read_prkdf_numbered(s1, a, log, n1);
            match spec_read_prkdf(s1, a, log, n1) {
                SFlow::Transmit(_) => {},
                SFlow::Done((b, s2), n2) => {
                    lemma_read_dir_objects_numbered(DirKind::PuKdf, FID_PUKDF, s2, b, log, n2);
                    match spec_read_dir_objects(DirKind::PuKdf, FID_PUKDF, s2, b, log, n2) {
                        SFlow::Transmit(_) => {},
                        SFlow::Done((c, s3), n3) => {
                            lemma_read_dir_objects_numbered(DirKind::Cdf, FID_CDF, s3, c, log, n3);
                            match spec_read_dir_objects(DirKind::Cdf, FID_CDF, s3, c, log, n3) {
                                SFlow::Transmit(_) => {},
                                SFlow::Done((d, s4), n4) => {
                                    lemma_read_dir_objects_numbered(DirKind::Dodf, FID_DODF, s4, d, log, n4);
                                },
                            }
                        },
                    }
                },
            }
        },
    }
}

/// A bound token is read afresh, whatever it held before: it is bound,
/// holds at most [`MAX_OBJS`] objects numbered 1 to n in the order the
/// directory files list them, and allows PINs of 6 to 8 bytes.
pub proof fn lemma_bind_numbers_objects(st: CardState, log: Seq<Option<Response>>, at: int)
    ensures
        spec_bind(st, log, at) matches SFlow::Done((t, s), m) ==> t.bound && well_numbered(t),
{
    let t0 = default_token_model();
    assert(well_numbered(t0));
    match spec_select_mf(st, log, at) {
        SFlow::Transmit(_) => {},
        SFlow::Done((r0, s0), n0) => {
            match spec_read_ef_path(s0, TOKENINFO_PATH@, log, n0) {
                SFlow::Transmit(_) => {},
                SFlow::Done(v, n) => {},
            }
            match spec_read_tokeninfo(s0, t0, log, n0) {
                SFlow::Transmit(_) => {},
                SFlow::Done((a, s1), n1) => {
                    assert(well_numbered(a));
                    match spec_read_ef_bytes(s1, CARD_NUMBER_PATH@, 0, 16, log, n1) {
                        SFlow::Transmit(_) => {},
                        SFlow::Done(v, n) => {},
                    }
                    match spec_read_card_number(s1, a, log, n1) {
                        SFlow::Transmit(_) => {},
                        SFlow::Done((b, s2), n2) => {
                            assert(well_numbered(b));
                            match spec_read_ef_bytes(s2, CARD_VERSION_PATH@, 0, 24, log, n2) {
                                SFlow::Transmit(_) => {},
                                SFlow::Done(v, n) => {},
                            }
                            match spec_read_model(s2, b, log, n2) {
                                SFlow::Transmit(_) => {},
                                SFlow::Done((c, s3), n3) => {
                                    assert(well_numbered(c));
                                    lemma_read_objects_numbered(s3, c, log, n3);
                                    match spec_read_objects(s3, c, log, n3) {
                                        SFlow::Transmit(_) => {},
                                        SFlow::Done((d, s4), n4) => {
                                            let lk = linked_models(d.objs);
                                            assert forall|i: int| 0 <= i < lk.len() implies #[trigger] lk[i].handle == i + 1 by {
                                                assert(d.objs[i].handle == i + 1);
                                            }
                                        },
                                    }
                                },
                            }
                        },
                    }
                },
            }
        },
    }
}

/// Bind the card: token information and PKCS#15 objects.
pub fn bind(st: &CardState, log: &[Option<Response>], at: usize) -> (r: Flow<(Token, CardState)>)
    requires
        at <= log@.len(),
    ensures
        flow_matches(r, spec_bind(*st, log@, at as int), |a, b| same_token_card(a, b)),
        flow_within(r, at as int, log@.len() as int),
{
    let tok = Token::default();
    assert(tok@ =~= default_token_model());
    let (s0, n0) = match select_mf(st, log, at) {
        Flow::Transmit(c) => return Flow::Transmit(c),
        Flow::Done((_, s), n) => (s, n),
    };
    let (t1, s1, n1) = match read_hicos_tokeninfo_ef(&s0, tok, log, n0) {
        Flow::Transmit(c) => return Flow::Transmit(c),
        Flow::Done((t, s), n) => (t, s, n),
    };
    let (t2, s2, n2) = match read_hicos_card_number(&s1, t1, log, n1) {
        Flow::Transmit(c) => return Flow::Transmit(c),
        Flow::Done((t, s), n) => (t, s, n),
    };
    let (t3, s3, n3) = match read_hicos_model(&s2, t2, log, n2) {
        Flow::Transmit(c) => return Flow::Transmit(c),
        Flow::Done((t, s), n) => (t, s, n),
    };
    let (mut t4, s4, n4) = match read_objects(&s3, t3, log, n3) {
        Flow::Transmit(c) => return Flow::Transmit(c),
        Flow::Done((t, s), n) => (t, s, n),
    };
    let ghost before = t4;
    link_key_material(&mut t4);
    proof { lemma_linked_models(before.objs@, t4.objs@); }
    t4.bound = true;
    assert(t4@ =~= (TokenModel { objs: linked_models(before@.objs), bound: true, ..before@ }));
    Flow::Done((t4, s4), n4)
}

} // verus!
