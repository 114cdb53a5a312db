//! Cryptoki logic: sessions, objects and attributes, and the RSA
//! operations around the card.

use crate::api::pad::{
    self, digest_len, digestinfo_md5, digestinfo_sha1, digestinfo_sha256, digestinfo_sha384, digestinfo_sha512,
    md5_prefix, mgf1_fits, mgf1_mask, oaep_decoded, oaep_encoded, sha1_prefix, sha256_prefix, sha384_prefix,
    sha512_prefix,
};
use crate::api::{Error, OaepHash};
use crate::bytes::{bytes_eq, bytes_to_vec};
use crate::der::{be_value, byte_range, lemma_be_value_bound, lemma_byte_range_mono};
use crate::crypto::{self, md5_value, sha1_value, sha256_value, sha384_value, sha512_value};
use crate::apdu::gen2::{cleared_auth, same_auth};
use crate::apdu::{
    clear_auth_state, decrypt, flow_matches, initial_state, reset_cla, rsa_private_op, same_conn, sign, spec_decrypt, spec_rsa_private_op, spec_sign,
    spec_verify_pin, then, type1_block, type2_block, type2_message, lemma_type2_roundtrip, verify_pin, CardProfile, CardState, Connection, ConnectionModel, Flow,
    PinResult, Response, SFlow,
};
use crate::p15::{
    find, find_from, is_default_token, usage_applied, ObjClass, ObjModel, Token, TokenObject, MAX_OBJS, USAGE_DECRYPT,
    USAGE_SIGN, USAGE_SIGN_RECOVER, USAGE_UNWRAP,
};
use crate::pkcs11::types::{
    AttrView, CKA_ALWAYS_AUTHENTICATE, CKA_ALWAYS_SENSITIVE, CKA_APPLICATION, CKA_CERTIFICATE_TYPE, CKA_CLASS,
    CKA_DECRYPT, CKA_DERIVE, CKA_ENCRYPT, CKA_EXTRACTABLE, CKA_ID, CKA_ISSUER, CKA_KEY_TYPE, CKA_LABEL, CKA_LOCAL,
    CKA_MODIFIABLE, CKA_MODULUS, CKA_MODULUS_BITS, CKA_NEVER_EXTRACTABLE, CKA_OBJECT_ID, CKA_PRIVATE,
    CKA_PUBLIC_EXPONENT, CKA_SENSITIVE, CKA_SERIAL_NUMBER, CKA_SIGN, CKA_SIGN_RECOVER, CKA_SUBJECT, CKA_TOKEN,
    CKA_UNWRAP, CKA_VALUE, CKA_VERIFY, CKA_VERIFY_RECOVER, CKA_WRAP, CKC_X_509, CKF_DECRYPT, CKF_DIGEST, CKF_ENCRYPT,
    CKF_HW, CKF_HW_SLOT, CKF_LOGIN_REQUIRED, CKF_REMOVABLE_DEVICE, CKF_RNG, CKF_RW_SESSION, CKF_SERIAL_SESSION,
    CKF_SIGN, CKF_TOKEN_INITIALIZED, CKF_TOKEN_PRESENT, CKF_USER_PIN_INITIALIZED, CKF_VERIFY, CKG_MGF1_SHA1,
    CKG_MGF1_SHA256, CKG_MGF1_SHA384, CKG_MGF1_SHA512, CKK_RSA, CKM_MD5, CKM_MD5_RSA_PKCS, CKM_RSA_PKCS,
    CKM_RSA_PKCS_OAEP, CKM_RSA_X_509, CKM_SHA1_RSA_PKCS, CKM_SHA256, CKM_SHA256_RSA_PKCS, CKM_SHA384,
    CKM_SHA384_RSA_PKCS, CKM_SHA512, CKM_SHA512_RSA_PKCS, CKM_SHA_1, CKO_CERTIFICATE, CKO_DATA, CKO_PRIVATE_KEY,
    CKO_PUBLIC_KEY, CKR_ARGUMENTS_BAD, CKR_ATTRIBUTE_TYPE_INVALID, CKR_BUFFER_TOO_SMALL,
    CKR_CRYPTOKI_ALREADY_INITIALIZED, CKR_CRYPTOKI_NOT_INITIALIZED, CKR_DATA_LEN_RANGE, CKR_DEVICE_ERROR,
    CKR_ENCRYPTED_DATA_INVALID, CKR_FUNCTION_FAILED, CKR_FUNCTION_NOT_SUPPORTED, CKR_KEY_FUNCTION_NOT_PERMITTED,
    CKR_KEY_HANDLE_INVALID, CKR_MECHANISM_INVALID, CKR_OBJECT_HANDLE_INVALID, CKR_OK, CKR_OPERATION_NOT_INITIALIZED,
    CKR_PIN_INCORRECT, CKR_PIN_LOCKED, CKR_SESSION_COUNT, CKR_SESSION_HANDLE_INVALID,
    CKR_SESSION_PARALLEL_NOT_SUPPORTED, CKR_SIGNATURE_INVALID, CKR_SIGNATURE_LEN_RANGE, CKR_SLOT_ID_INVALID,
    CKR_TOKEN_NOT_PRESENT, CKR_USER_ALREADY_LOGGED_IN, CKR_USER_NOT_LOGGED_IN, CKR_USER_TYPE_INVALID,
    CKS_RO_PUBLIC_SESSION, CKS_RO_USER_FUNCTIONS, CKS_RW_PUBLIC_SESSION, CKS_RW_USER_FUNCTIONS, CKU_USER,
    CKZ_DATA_SPECIFIED, CK_ATTRIBUTE, CK_ATTRIBUTE_TYPE, CK_BBOOL, CK_BYTE, CK_CERTIFICATE_TYPE, CK_CHAR, CK_FALSE,
    CK_FLAGS, CK_INFO, CK_KEY_TYPE, CK_LONG, CK_MECHANISM, CK_MECHANISM_INFO, CK_MECHANISM_TYPE, CK_OBJECT_HANDLE,
    CK_RSA_PKCS_OAEP_PARAMS, CK_RV, CK_SESSION_HANDLE, CK_SESSION_INFO, CK_SLOT_ID, CK_SLOT_INFO, CK_STATE,
    CK_TOKEN_INFO, CK_TRUE, CK_ULONG, CK_UNAVAILABLE_INFORMATION, CK_USER_TYPE, CK_UTF8CHAR, CK_VERSION,
    OAEP_PARAMS_SIZE, attr_wf, blank_filled, fill_blank, template_view,
};
use vstd::arithmetic::power::pow;
use vstd::prelude::*;
use vstd::string::StringSliceAdditionalSpecFns;
use vstd::utf8::encode_utf8;

verus! {

/// Session state for the session flags and the slot's login state.
pub open spec fn session_state_of(flags: CK_FLAGS, logged_in: bool) -> CK_STATE {
    let rw = flags & CKF_RW_SESSION != 0;
    if rw && logged_in {
        CKS_RW_USER_FUNCTIONS
    } else if rw {
        CKS_RW_PUBLIC_SESSION
    } else if logged_in {
        CKS_RO_USER_FUNCTIONS
    } else {
        CKS_RO_PUBLIC_SESSION
    }
}

/// The session state a session with `flags` is in.
pub fn session_state(flags: CK_FLAGS, logged_in: bool) -> (s: CK_STATE)
    ensures
        s == session_state_of(flags, logged_in),
{
    match (flags & CKF_RW_SESSION != 0, logged_in) {
        (true, true) => CKS_RW_USER_FUNCTIONS,
        (true, false) => CKS_RW_PUBLIC_SESSION,
        (false, true) => CKS_RO_USER_FUNCTIONS,
        (false, false) => CKS_RO_PUBLIC_SESSION,
    }
}

/// `CKA_CLASS` of an object class.
pub open spec fn class_of(c: ObjClass) -> CK_ULONG {
    match c {
        ObjClass::PrivKey => CKO_PRIVATE_KEY,
        ObjClass::PubKey => CKO_PUBLIC_KEY,
        ObjClass::Cert => CKO_CERTIFICATE,
        ObjClass::Data => CKO_DATA,
    }
}

/// The `CKA_CLASS` value of an object.
pub fn object_class(o: &TokenObject) -> (c: CK_ULONG)
    ensures
        c == class_of(o.cls),
{
    match o.cls {
        ObjClass::PrivKey => CKO_PRIVATE_KEY,
        ObjClass::PubKey => CKO_PUBLIC_KEY,
        ObjClass::Cert => CKO_CERTIFICATE,
        ObjClass::Data => CKO_DATA,
    }
}

/// A `CK_ULONG` as the eight bytes of its in-memory (little-endian) form.
pub open spec fn le8(x: u64) -> Seq<u8> {
    seq![
        (x % 0x100) as u8,
        ((x / 0x100) % 0x100) as u8,
        ((x / 0x1_0000) % 0x100) as u8,
        ((x / 0x100_0000) % 0x100) as u8,
        ((x / 0x1_0000_0000) % 0x100) as u8,
        ((x / 0x100_0000_0000) % 0x100) as u8,
        ((x / 0x1_0000_0000_0000) % 0x100) as u8,
        ((x / 0x100_0000_0000_0000) % 0x100) as u8,
    ]
}

fn le8_bytes(x: u64) -> (out: Vec<u8>)
    ensures
        out@ == le8(x),
{
    let out = vec![
        (x % 0x100) as u8,
        ((x / 0x100) % 0x100) as u8,
        ((x / 0x1_0000) % 0x100) as u8,
        ((x / 0x100_0000) % 0x100) as u8,
        ((x / 0x1_0000_0000) % 0x100) as u8,
        ((x / 0x100_0000_0000) % 0x100) as u8,
        ((x / 0x1_0000_0000_0000) % 0x100) as u8,
        ((x / 0x100_0000_0000_0000) % 0x100) as u8,
    ];
    assert(out@ =~= le8(x));
    out
}

/// Whether one attribute of a search template admits object `o`: a class
/// (eight bytes), identifier, label or value must equal the object's; a
/// one-byte `CKA_SIGN` or `CKA_DECRYPT` that is set needs the capability.
/// Attributes without a buffer, and all other types, admit every object.
pub open spec fn attr_admits(o: ObjModel, t: AttrView) -> bool {
    match t.value {
        None => true,
        Some(v) => if t.type_ == CKA_CLASS {
            t.len == 8 ==> v == le8(class_of(o.cls))
        } else if t.type_ == CKA_ID {
            v == o.id
        } else if t.type_ == CKA_LABEL {
            v == encode_utf8(o.label)
        } else if t.type_ == CKA_VALUE {
            v == o.data
        } else if t.type_ == CKA_SIGN {
            t.len == 1 ==> (v[0] != CK_FALSE ==> o.can_sign)
        } else if t.type_ == CKA_DECRYPT {
            t.len == 1 ==> (v[0] != CK_FALSE ==> o.can_decrypt)
        } else {
            true
        },
    }
}

/// Whether every attribute of a search template admits `o`.
pub open spec fn template_admits(o: ObjModel, t: Seq<AttrView>) -> bool {
    forall|i: int| 0 <= i < t.len() ==> attr_admits(o, #[trigger] t[i])
}

/// Whether object `o` matches the search template `tmpl`.
pub fn attr_match(o: &TokenObject, tmpl: &[CK_ATTRIBUTE]) -> (b: bool)
    requires
        forall|i: int| 0 <= i < tmpl@.len() ==> attr_wf(#[trigger] tmpl@[i]@),
    ensures
        b == template_admits(o@, template_view(tmpl@)),
{
    let mut i: usize = 0;
    while i < tmpl.len()
        invariant
            i <= tmpl@.len(),
            forall|j: int| 0 <= j < tmpl@.len() ==> attr_wf(#[trigger] tmpl@[j]@),
            forall|j: int| 0 <= j < i ==> attr_admits(o@, #[trigger] template_view(tmpl@)[j]),
        decreases tmpl@.len() - i,
    {
        let t = &tmpl[i];
        assert(template_view(tmpl@)[i as int] == t@);
        if let Some(v) = &t.pValue {
            if t.type_ == CKA_CLASS {
                if t.ulValueLen == 8 {
                    let want = le8_bytes(object_class(o));
                    if !bytes_eq(v, &want) {
                        return false;
                    }
                }
            } else if t.type_ == CKA_ID {
                if v.len() != o.id.len() || !bytes_eq(v, &o.id) {
                    return false;
                }
            } else if t.type_ == CKA_LABEL {
                let label = o.label.as_str().as_bytes();
                if v.len() != label.len() || !bytes_eq(v, label) {
                    return false;
                }
            } else if t.type_ == CKA_VALUE {
                if v.len() != o.data.len() || !bytes_eq(v, &o.data) {
                    return false;
                }
            } else if t.type_ == CKA_SIGN {
                if t.ulValueLen == 1 && v[0] != CK_FALSE && !o.can_sign {
                    return false;
                }
            } else if t.type_ == CKA_DECRYPT {
                if t.ulValueLen == 1 && v[0] != CK_FALSE && !o.can_decrypt {
                    return false;
                }
            }
        }
        i += 1;
    }
    true
}

/// The one-byte encoding of a boolean attribute.
pub open spec fn bool_value(b: bool) -> Seq<u8> {
    seq![if b { CK_TRUE } else { CK_FALSE }]
}

/// Whether objects of class `c` are keys.
pub open spec fn is_key_class(c: ObjClass) -> bool {
    c == ObjClass::PrivKey || c == ObjClass::PubKey
}

/// A byte attribute that is present only when not empty.
pub open spec fn nonempty(v: Seq<u8>) -> Option<Seq<u8>> {
    if v.len() == 0 { None } else { Some(v) }
}

/// The value of attribute `ty` of object `o`; `None` where the object has
/// no such attribute.
pub open spec fn attr_value(o: ObjModel, ty: CK_ATTRIBUTE_TYPE) -> Option<Seq<u8>> {
    let key = is_key_class(o.cls);
    if ty == CKA_CLASS {
        Some(le8(class_of(o.cls)))
    } else if ty == CKA_TOKEN {
        Some(bool_value(true))
    } else if ty == CKA_PRIVATE {
        Some(bool_value(o.private))
    } else if ty == CKA_MODIFIABLE {
        Some(bool_value(o.modifiable))
    } else if ty == CKA_LOCAL {
        if key { Some(bool_value(o.local)) } else { None }
    } else if ty == CKA_LABEL {
        Some(encode_utf8(o.label))
    } else if ty == CKA_ID {
        Some(o.id)
    } else if ty == CKA_KEY_TYPE {
        if key { Some(le8(CKK_RSA)) } else { None }
    } else if ty == CKA_CERTIFICATE_TYPE {
        if o.cls == ObjClass::Cert { Some(le8(CKC_X_509)) } else { None }
    } else if ty == CKA_SUBJECT {
        nonempty(o.subject)
    } else if ty == CKA_ISSUER {
        nonempty(o.issuer)
    } else if ty == CKA_SERIAL_NUMBER {
        nonempty(o.serial)
    } else if ty == CKA_APPLICATION {
        if o.application.len() == 0 { None } else { Some(encode_utf8(o.application)) }
    } else if ty == CKA_OBJECT_ID {
        nonempty(o.app_oid)
    } else if ty == CKA_VALUE {
        nonempty(o.data)
    } else if ty == CKA_MODULUS {
        nonempty(o.modulus)
    } else if ty == CKA_MODULUS_BITS {
        if o.modulus_bits == 0 || !key { None } else { Some(le8(o.modulus_bits)) }
    } else if ty == CKA_PUBLIC_EXPONENT {
        nonempty(o.pubexp)
    } else if ty == CKA_SIGN {
        Some(bool_value(o.can_sign))
    } else if ty == CKA_SIGN_RECOVER || ty == CKA_VERIFY_RECOVER || ty == CKA_DERIVE {
        Some(bool_value(false))
    } else if ty == CKA_DECRYPT {
        Some(bool_value(o.can_decrypt))
    } else if ty == CKA_VERIFY {
        Some(bool_value(o.can_verify))
    } else if ty == CKA_ENCRYPT {
        Some(bool_value(o.can_encrypt))
    } else if ty == CKA_WRAP {
        Some(bool_value(o.can_wrap))
    } else if ty == CKA_UNWRAP {
        Some(bool_value(o.can_unwrap))
    } else if ty == CKA_SENSITIVE || ty == CKA_ALWAYS_SENSITIVE || ty == CKA_NEVER_EXTRACTABLE {
        Some(bool_value(o.cls == ObjClass::PrivKey))
    } else if ty == CKA_EXTRACTABLE || ty == CKA_ALWAYS_AUTHENTICATE {
        Some(bool_value(false))
    } else {
        None
    }
}

fn bool_bytes(b: bool) -> (out: Vec<u8>)
    ensures
        out@ == bool_value(b),
{
    let out = vec![if b { CK_TRUE } else { CK_FALSE }];
    assert(out@ =~= bool_value(b));
    out
}

fn nonempty_bytes(v: &Vec<u8>) -> (r: Option<Vec<u8>>)
    ensures
        match nonempty(v@) {
            Some(x) => r matches Some(w) && w@ == x,
            None => r is None,
        },
{
    if v.len() == 0 { None } else { Some(bytes_to_vec(v)) }
}

/// The value of attribute `ty` of object `o`, if it has one.
pub fn attribute_value(o: &TokenObject, ty: CK_ATTRIBUTE_TYPE) -> (r: Option<Vec<u8>>)
    ensures
        match attr_value(o@, ty) {
            Some(x) => r matches Some(w) && w@ == x,
            None => r is None,
        },
{
    let key = o.cls == ObjClass::PrivKey || o.cls == ObjClass::PubKey;
    if ty == CKA_CLASS {
        Some(le8_bytes(object_class(o)))
    } else if ty == CKA_TOKEN {
        Some(bool_bytes(true))
    } else if ty == CKA_PRIVATE {
        Some(bool_bytes(o.private))
    } else if ty == CKA_MODIFIABLE {
        Some(bool_bytes(o.modifiable))
    } else if ty == CKA_LOCAL {
        if key { Some(bool_bytes(o.local)) } else { None }
    } else if ty == CKA_LABEL {
        Some(bytes_to_vec(o.label.as_str().as_bytes()))
    } else if ty == CKA_ID {
        Some(bytes_to_vec(&o.id))
    } else if ty == CKA_KEY_TYPE {
        if key { Some(le8_bytes(CKK_RSA)) } else { None }
    } else if ty == CKA_CERTIFICATE_TYPE {
        if o.cls == ObjClass::Cert { Some(le8_bytes(CKC_X_509)) } else { None }
    } else if ty == CKA_SUBJECT {
        nonempty_bytes(&o.subject)
    } else if ty == CKA_ISSUER {
        nonempty_bytes(&o.issuer)
    } else if ty == CKA_SERIAL_NUMBER {
        nonempty_bytes(&o.serial)
    } else if ty == CKA_APPLICATION {
        if o.application.as_str().is_empty() {
            None
        } else {
            Some(bytes_to_vec(o.application.as_str().as_bytes()))
        }
    } else if ty == CKA_OBJECT_ID {
        nonempty_bytes(&o.app_oid)
    } else if ty == CKA_VALUE {
        nonempty_bytes(&o.data)
    } else if ty == CKA_MODULUS {
        nonempty_bytes(&o.modulus)
    } else if ty == CKA_MODULUS_BITS {
        if o.modulus_bits == 0 || !key { None } else { Some(le8_bytes(o.modulus_bits)) }
    } else if ty == CKA_PUBLIC_EXPONENT {
        nonempty_bytes(&o.pubexp)
    } else if ty == CKA_SIGN {
        Some(bool_bytes(o.can_sign))
    } else if ty == CKA_SIGN_RECOVER || ty == CKA_VERIFY_RECOVER || ty == CKA_DERIVE {
        Some(bool_bytes(false))
    } else if ty == CKA_DECRYPT {
        Some(bool_bytes(o.can_decrypt))
    } else if ty == CKA_VERIFY {
        Some(bool_bytes(o.can_verify))
    } else if ty == CKA_ENCRYPT {
        Some(bool_bytes(o.can_encrypt))
    } else if ty == CKA_WRAP {
        Some(bool_bytes(o.can_wrap))
    } else if ty == CKA_UNWRAP {
        Some(bool_bytes(o.can_unwrap))
    } else if ty == CKA_SENSITIVE || ty == CKA_ALWAYS_SENSITIVE || ty == CKA_NEVER_EXTRACTABLE {
        Some(bool_bytes(o.cls == ObjClass::PrivKey))
    } else if ty == CKA_EXTRACTABLE || ty == CKA_ALWAYS_AUTHENTICATE {
        Some(bool_bytes(false))
    } else {
        None
    }
}

/// An attribute of a value query after the object's value `v` is written
/// into it, with the query's status for it: a missing value marks the
/// length unavailable; without a buffer only the length is reported; a
/// buffer too small gets the needed length; otherwise the value is copied
/// to the front of the buffer.
pub open spec fn filled_attr(a: AttrView, v: Option<Seq<u8>>) -> (AttrView, CK_RV) {
    match v {
        None => (AttrView { len: CK_UNAVAILABLE_INFORMATION, ..a }, CKR_ATTRIBUTE_TYPE_INVALID),
        Some(d) => match a.value {
            None => (AttrView { len: d.len() as u64, ..a }, CKR_OK),
            Some(buf) => if a.len < d.len() {
                (AttrView { len: d.len() as u64, ..a }, CKR_BUFFER_TOO_SMALL)
            } else {
                (AttrView { value: Some(d + buf.subrange(d.len() as int, buf.len() as int)), len: d.len() as u64, ..a }, CKR_OK)
            },
        },
    }
}

/// The status of a query so far, `rv`, after one attribute reports `r`: a
/// buffer too small wins, otherwise the first failure is kept.
pub open spec fn fold_rv(rv: CK_RV, r: CK_RV) -> CK_RV {
    if r == CKR_BUFFER_TOO_SMALL {
        CKR_BUFFER_TOO_SMALL
    } else if r != CKR_OK && rv == CKR_OK {
        r
    } else {
        rv
    }
}

/// Status of a value query of `o` over template `t`.
pub open spec fn query_rv(o: ObjModel, t: Seq<AttrView>) -> CK_RV
    decreases t.len(),
{
    if t.len() == 0 {
        CKR_OK
    } else {
        fold_rv(query_rv(o, t.drop_last()), filled_attr(t.last(), attr_value(o, t.last().type_)).1)
    }
}

/// Answer the value query `tmpl` about object `o`: the template with each
/// attribute filled in, and the status of the query.
pub fn get_attribute_values(o: &TokenObject, tmpl: &[CK_ATTRIBUTE]) -> (r: (CK_RV, Vec<CK_ATTRIBUTE>))
    requires
        forall|i: int| 0 <= i < tmpl@.len() ==> attr_wf(#[trigger] tmpl@[i]@),
    ensures
        r.0 == query_rv(o@, template_view(tmpl@)),
        r.1@.len() == tmpl@.len(),
        forall|i: int| 0 <= i < tmpl@.len() ==>
            #[trigger] r.1@[i]@ == filled_attr(tmpl@[i]@, attr_value(o@, tmpl@[i].type_)).0,
{
    let mut out: Vec<CK_ATTRIBUTE> = Vec::new();
    let mut rv: CK_RV = CKR_OK;
    let mut i: usize = 0;
    while i < tmpl.len()
        invariant
            i <= tmpl@.len(),
            forall|j: int| 0 <= j < tmpl@.len() ==> attr_wf(#[trigger] tmpl@[j]@),
            out@.len() == i,
            rv == query_rv(o@, template_view(tmpl@).take(i as int)),
            forall|j: int| 0 <= j < i ==>
                #[trigger] out@[j]@ == filled_attr(tmpl@[j]@, attr_value(o@, tmpl@[j].type_)).0,
        decreases tmpl@.len() - i,
    {
        let a = &tmpl[i];
        let v = attribute_value(o, a.type_);
        let ghost expect = filled_attr(a@, attr_value(o@, a.type_));
        let (na, r) = match v {
            None => (CK_ATTRIBUTE { type_: a.type_, pValue: copy_buffer(&a.pValue), ulValueLen: CK_UNAVAILABLE_INFORMATION }, CKR_ATTRIBUTE_TYPE_INVALID),
            Some(d) => match &a.pValue {
                None => (CK_ATTRIBUTE { type_: a.type_, pValue: None, ulValueLen: d.len() as u64 }, CKR_OK),
                Some(buf) => if a.ulValueLen < d.len() as u64 {
                    (CK_ATTRIBUTE { type_: a.type_, pValue: Some(bytes_to_vec(buf)), ulValueLen: d.len() as u64 }, CKR_BUFFER_TOO_SMALL)
                } else {
                    let mut nb = bytes_to_vec(&d);
                    let rest = vstd::slice::slice_subrange(buf.as_slice(), d.len(), buf.len());
                    nb.extend_from_slice(rest);
                    assert(nb@ =~= d@ + buf@.subrange(d@.len() as int, buf@.len() as int));
                    (CK_ATTRIBUTE { type_: a.type_, pValue: Some(nb), ulValueLen: d.len() as u64 }, CKR_OK)
                },
            },
        };
        assert(na@ == expect.0 && r == expect.1);
        let ghost prev = rv;
        rv = if r == CKR_BUFFER_TOO_SMALL {
            CKR_BUFFER_TOO_SMALL
        } else if r != CKR_OK && rv == CKR_OK {
            r
        } else {
            rv
        };
        out.push(na);
        assert(template_view(tmpl@).take(i + 1).drop_last() =~= template_view(tmpl@).take(i as int));
        assert(template_view(tmpl@).take(i + 1).last() == tmpl@[i as int]@);
        i += 1;
    }
    assert(template_view(tmpl@).take(i as int) =~= template_view(tmpl@));
    (rv, out)
}

fn copy_buffer(b: &Option<Vec<u8>>) -> (r: Option<Vec<u8>>)
    ensures
        match b {
            Some(v) => r matches Some(w) && w@ == v@,
            None => r is None,
        },
{
    match b {
        Some(v) => Some(bytes_to_vec(v)),
        None => None,
    }
}

/// The DigestInfo a hash-and-sign mechanism signs for `data`; `None` for
/// other mechanisms.
pub open spec fn hash_rsa_digest_info(mech: CK_MECHANISM_TYPE, data: Seq<u8>) -> Option<Seq<u8>> {
    if mech == CKM_MD5_RSA_PKCS {
        Some(md5_prefix() + md5_value(data))
    } else if mech == CKM_SHA1_RSA_PKCS {
        Some(sha1_prefix() + sha1_value(data))
    } else if mech == CKM_SHA256_RSA_PKCS {
        Some(sha256_prefix() + sha256_value(data))
    } else if mech == CKM_SHA384_RSA_PKCS {
        Some(sha384_prefix() + sha384_value(data))
    } else if mech == CKM_SHA512_RSA_PKCS {
        Some(sha512_prefix() + sha512_value(data))
    } else {
        None
    }
}

/// The mechanisms that hash the data and sign its DigestInfo.
pub open spec fn is_hash_rsa_mech(mech: CK_MECHANISM_TYPE) -> bool {
    mech == CKM_MD5_RSA_PKCS || mech == CKM_SHA1_RSA_PKCS || mech == CKM_SHA256_RSA_PKCS
        || mech == CKM_SHA384_RSA_PKCS || mech == CKM_SHA512_RSA_PKCS
}

/// DigestInfo of `data` for a hash-and-sign mechanism.
pub fn digest_info_for_hash_mech(mech: CK_MECHANISM_TYPE, data: &[u8]) -> (r: Result<Vec<u8>, CK_RV>)
    ensures
        match hash_rsa_digest_info(mech, data@) {
            Some(d) => r matches Ok(v) && v@ == d,
            None => r == Err::<Vec<u8>, CK_RV>(CKR_MECHANISM_INVALID),
        },
{
    if mech == CKM_MD5_RSA_PKCS {
        Ok(digestinfo_md5(&crypto::md5(data)))
    } else if mech == CKM_SHA1_RSA_PKCS {
        Ok(digestinfo_sha1(&crypto::sha1(data)))
    } else if mech == CKM_SHA256_RSA_PKCS {
        Ok(digestinfo_sha256(&crypto::sha256(data)))
    } else if mech == CKM_SHA384_RSA_PKCS {
        Ok(digestinfo_sha384(&crypto::sha384(data)))
    } else if mech == CKM_SHA512_RSA_PKCS {
        Ok(digestinfo_sha512(&crypto::sha512(data)))
    } else {
        Err(CKR_MECHANISM_INVALID)
    }
}

/// Whether `mech` hashes the data and signs its DigestInfo.
pub fn is_hash_rsa_pkcs(mech: CK_MECHANISM_TYPE) -> (b: bool)
    ensures
        b == is_hash_rsa_mech(mech),
{
    mech == CKM_MD5_RSA_PKCS || mech == CKM_SHA1_RSA_PKCS || mech == CKM_SHA256_RSA_PKCS
        || mech == CKM_SHA384_RSA_PKCS || mech == CKM_SHA512_RSA_PKCS
}

/// The OAEP hash a hash mechanism names.
pub open spec fn oaep_alg(mech: CK_MECHANISM_TYPE) -> Option<OaepHash> {
    if mech == CKM_SHA_1 {
        Some(OaepHash::Sha1)
    } else if mech == CKM_SHA256 {
        Some(OaepHash::Sha256)
    } else if mech == CKM_SHA384 {
        Some(OaepHash::Sha384)
    } else if mech == CKM_SHA512 {
        Some(OaepHash::Sha512)
    } else {
        None
    }
}

fn oaep_hash_of(mech: CK_MECHANISM_TYPE) -> (r: Option<OaepHash>)
    ensures
        r == oaep_alg(mech),
{
    if mech == CKM_SHA_1 {
        Some(OaepHash::Sha1)
    } else if mech == CKM_SHA256 {
        Some(OaepHash::Sha256)
    } else if mech == CKM_SHA384 {
        Some(OaepHash::Sha384)
    } else if mech == CKM_SHA512 {
        Some(OaepHash::Sha512)
    } else {
        None
    }
}

/// Digest of `data` under the OAEP hash mechanism `hash_alg`.
pub fn hash_oaep(hash_alg: CK_MECHANISM_TYPE, data: &[u8]) -> (r: Result<Vec<u8>, CK_RV>)
    ensures
        match oaep_alg(hash_alg) {
            Some(a) => r matches Ok(v) && v@ == pad::digest(a, data@),
            None => r == Err::<Vec<u8>, CK_RV>(CKR_MECHANISM_INVALID),
        },
{
    match oaep_hash_of(hash_alg) {
        Some(a) => Ok(pad::hash_oaep(a, data)),
        None => Err(CKR_MECHANISM_INVALID),
    }
}

/// MGF1 mask of `length` bytes under the hash mechanism `hash_alg`. No
/// block is hashed for an empty mask, so any mechanism gives the empty mask.
pub fn mgf1(hash_alg: CK_MECHANISM_TYPE, seed: &[u8], length: usize) -> (r: Result<Vec<u8>, CK_RV>)
    ensures
        length == 0 ==> (r matches Ok(v) && v@.len() == 0),
        length > 0 ==> match oaep_alg(hash_alg) {
            None => r == Err::<Vec<u8>, CK_RV>(CKR_MECHANISM_INVALID),
            Some(a) => if mgf1_fits(a, length as nat) {
                r matches Ok(v) && v@ == mgf1_mask(a, seed@, length as nat)
            } else {
                r == Err::<Vec<u8>, CK_RV>(CKR_FUNCTION_FAILED)
            },
        },
{
    if length == 0 {
        return Ok(Vec::new());
    }
    match oaep_hash_of(hash_alg) {
        None => Err(CKR_MECHANISM_INVALID),
        Some(a) => match pad::mgf1(a, seed, length) {
            Ok(m) => Ok(m),
            Err(_) => Err(CKR_FUNCTION_FAILED),
        },
    }
}

/// EME-OAEP encoding of `message` into `modulus_len` bytes under the hash
/// mechanism `hash_alg` and `label`, with a random seed: on success the
/// block is the encoding under some seed of digest length.
pub fn oaep_encode(hash_alg: CK_MECHANISM_TYPE, label: &[u8], modulus_len: usize, message: &[u8]) -> (r: Result<Vec<u8>, CK_RV>)
    ensures
        oaep_alg(hash_alg) is None ==> r == Err::<Vec<u8>, CK_RV>(CKR_MECHANISM_INVALID),
        oaep_alg(hash_alg) matches Some(a) ==> {
            &&& message@.len() + 2 * digest_len(a) + 2 > modulus_len ==> r == Err::<Vec<u8>, CK_RV>(CKR_DATA_LEN_RANGE)
            &&& message@.len() + 2 * digest_len(a) + 2 <= modulus_len ==> match r {
                Ok(em) => em@.len() == modulus_len && mgf1_fits(a, (modulus_len - digest_len(a) - 1) as nat)
                    && exists|seed: Seq<u8>| seed.len() == digest_len(a) && em@ == oaep_encoded(a, label@, modulus_len as nat, message@, seed),
                Err(e) => e == CKR_DEVICE_ERROR
                    || (e == CKR_FUNCTION_FAILED && !mgf1_fits(a, (modulus_len - digest_len(a) - 1) as nat)),
            }
        },
{
    let a = match oaep_hash_of(hash_alg) {
        Some(a) => a,
        None => return Err(CKR_MECHANISM_INVALID),
    };
    let h = pad::hash_len(a);
    if message.len() > modulus_len || modulus_len - message.len() < 2 * h + 2 {
        return Err(CKR_DATA_LEN_RANGE);
    }
    let mut seed: Vec<u8> = Vec::new();
    while seed.len() < h
        invariant
            seed@.len() <= h,
        decreases h - seed@.len(),
    {
        seed.push(0);
    }
    if !crypto::fill_random(seed.as_mut_slice()) {
        return Err(CKR_DEVICE_ERROR);
    }
    match pad::oaep_encode_with_seed(a, label, modulus_len, message, &seed) {
        Ok(em) => {
            assert(em@.len() == modulus_len) by {
                lemma_oaep_encoded_len(a, label@, modulus_len as nat, message@, seed@);
            }
            Ok(em)
        },
        Err(_) => Err(CKR_FUNCTION_FAILED),
    }
}

proof fn lemma_oaep_encoded_len(a: OaepHash, label: Seq<u8>, k: nat, msg: Seq<u8>, seed: Seq<u8>)
    requires
        seed.len() == digest_len(a),
        msg.len() + 2 * digest_len(a) + 2 <= k,
    ensures
        oaep_encoded(a, label, k, msg, seed).len() == k,
{
}

/// The outcome of EME-OAEP decoding `em` under the hash mechanism
/// `hash_alg` and `label`.
pub open spec fn oaep_decode_result(hash_alg: CK_MECHANISM_TYPE, label: Seq<u8>, em: Seq<u8>) -> Result<Seq<u8>, CK_RV> {
    match oaep_alg(hash_alg) {
        None => Err(CKR_MECHANISM_INVALID),
        Some(a) => if em.len() < 2 * digest_len(a) + 2 || em[0] != 0 {
            Err(CKR_ENCRYPTED_DATA_INVALID)
        } else if !mgf1_fits(a, (em.len() - 1 - digest_len(a)) as nat) {
            Err(CKR_FUNCTION_FAILED)
        } else {
            match oaep_decoded(a, label, em) {
                Some(m) => Ok(m),
                None => Err(CKR_ENCRYPTED_DATA_INVALID),
            }
        },
    }
}

/// EME-OAEP decoding of `em` under the hash mechanism `hash_alg` and `label`.
pub fn oaep_decode(hash_alg: CK_MECHANISM_TYPE, label: &[u8], em: &[u8]) -> (r: Result<Vec<u8>, CK_RV>)
    ensures
        match oaep_decode_result(hash_alg, label@, em@) {
            Ok(m) => r matches Ok(v) && v@ == m,
            Err(e) => r == Err::<Vec<u8>, CK_RV>(e),
        },
        oaep_alg(hash_alg) is None ==> r == Err::<Vec<u8>, CK_RV>(CKR_MECHANISM_INVALID),
        oaep_alg(hash_alg) matches Some(a) ==> {
            &&& em@.len() < 2 * digest_len(a) + 2 || em@[0] != 0 ==> r == Err::<Vec<u8>, CK_RV>(CKR_ENCRYPTED_DATA_INVALID)
            &&& em@.len() >= 2 * digest_len(a) + 2 && em@[0] == 0 && !mgf1_fits(a, (em@.len() - 1 - digest_len(a)) as nat)
                ==> r == Err::<Vec<u8>, CK_RV>(CKR_FUNCTION_FAILED)
            &&& em@.len() >= 2 * digest_len(a) + 2 && em@[0] == 0 && mgf1_fits(a, (em@.len() - 1 - digest_len(a)) as nat)
                ==> match oaep_decoded(a, label@, em@) {
                    Some(m) => r matches Ok(v) && v@ == m,
                    None => r == Err::<Vec<u8>, CK_RV>(CKR_ENCRYPTED_DATA_INVALID),
                }
        },
{
    let a = match oaep_hash_of(hash_alg) {
        Some(a) => a,
        None => return Err(CKR_MECHANISM_INVALID),
    };
    match pad::oaep_decode(a, label, em) {
        Ok(m) => Ok(m),
        Err(Error::DecryptFailed) => Err(CKR_ENCRYPTED_DATA_INVALID),
        Err(_) => Err(CKR_FUNCTION_FAILED),
    }
}

/// The MGF a hash mechanism pairs with.
pub open spec fn mgf_for(mech: CK_MECHANISM_TYPE) -> Option<CK_ULONG> {
    if mech == CKM_SHA_1 {
        Some(CKG_MGF1_SHA1)
    } else if mech == CKM_SHA256 {
        Some(CKG_MGF1_SHA256)
    } else if mech == CKM_SHA384 {
        Some(CKG_MGF1_SHA384)
    } else if mech == CKM_SHA512 {
        Some(CKG_MGF1_SHA512)
    } else {
        None
    }
}

/// A mechanism is well formed when its parameter, if readable, holds a
/// label of `ulSourceDataLen` bytes where it holds one.
pub open spec fn mechanism_wf(m: CK_MECHANISM) -> bool {
    m.pParameter matches Some(p) ==> (p.pSourceData matches Some(d) ==> d@.len() == p.ulSourceDataLen)
}

/// OAEP hash mechanism and label a mechanism's parameters give: SHA-256 and
/// an empty label without parameters; the MGF must pair with the hash; the
/// label is the source data where it is specified and not empty.
pub open spec fn oaep_params_of(m: CK_MECHANISM) -> Result<(CK_MECHANISM_TYPE, Seq<u8>), CK_RV> {
    if m.pParameter is None || m.ulParameterLen == 0 {
        Ok((CKM_SHA256, Seq::empty()))
    } else if m.ulParameterLen != OAEP_PARAMS_SIZE {
        Err(CKR_ARGUMENTS_BAD)
    } else {
        let p = m.pParameter->0;
        match mgf_for(p.hashAlg) {
            None => Err(CKR_MECHANISM_INVALID),
            Some(g) => if p.mgf != g {
                Err(CKR_MECHANISM_INVALID)
            } else if p.source == CKZ_DATA_SPECIFIED && p.ulSourceDataLen > 0 && p.pSourceData is Some {
                Ok((p.hashAlg, p.pSourceData->0@))
            } else {
                Ok((p.hashAlg, Seq::empty()))
            },
        }
    }
}

/// Hash mechanism and label of an RSA-OAEP mechanism's parameters.
pub fn parse_oaep_params(mech: &CK_MECHANISM) -> (r: Result<(CK_MECHANISM_TYPE, Vec<u8>), CK_RV>)
    requires
        mechanism_wf(*mech),
    ensures
        match oaep_params_of(*mech) {
            Ok((h, l)) => r matches Ok((h2, l2)) && h2 == h && l2@ == l,
            Err(e) => r == Err::<(CK_MECHANISM_TYPE, Vec<u8>), CK_RV>(e),
        },
{
    let p = match &mech.pParameter {
        None => return Ok((CKM_SHA256, Vec::new())),
        Some(p) => p,
    };
    if mech.ulParameterLen == 0 {
        return Ok((CKM_SHA256, Vec::new()));
    }
    if mech.ulParameterLen != OAEP_PARAMS_SIZE {
        return Err(CKR_ARGUMENTS_BAD);
    }
    let expected_mgf = if p.hashAlg == CKM_SHA_1 {
        CKG_MGF1_SHA1
    } else if p.hashAlg == CKM_SHA256 {
        CKG_MGF1_SHA256
    } else if p.hashAlg == CKM_SHA384 {
        CKG_MGF1_SHA384
    } else if p.hashAlg == CKM_SHA512 {
        CKG_MGF1_SHA512
    } else {
        return Err(CKR_MECHANISM_INVALID);
    };
    if p.mgf != expected_mgf {
        return Err(CKR_MECHANISM_INVALID);
    }
    let label = match &p.pSourceData {
        Some(d) if p.source == CKZ_DATA_SPECIFIED && p.ulSourceDataLen > 0 => bytes_to_vec(d),
        _ => Vec::new(),
    };
    Ok((p.hashAlg, label))
}

/// A PKCS#1 v1.5 encryption block (`00 02 PS 00 M`) of `k` bytes around
/// `msg`, its padding string free of zero bytes.
pub open spec fn is_type2_block_of(em: Seq<u8>, msg: Seq<u8>, k: nat) -> bool {
    &&& msg.len() + 3 <= k
    &&& em.len() == k
    &&& em == type2_block(msg, em.subrange(2, k - msg.len() - 1))
    &&& forall|i: int| 2 <= i < k - msg.len() - 1 ==> em[i] != 0
}

/// `modulus_len - 11`, or 0 where that would be negative.
pub open spec fn room11(modulus_len: nat) -> nat {
    if modulus_len >= 11 { (modulus_len - 11) as nat } else { 0 }
}

/// Tries to draw a nonzero random byte before giving up: the draws are
/// bounded, by a count no working random source reaches with zero bytes
/// alone.
pub const RANDOM_DRAWS: u64 = 0xFFFF_FFFF_FFFF_FFFF;

fn nonzero_random_byte() -> (r: Option<u8>)
    ensures
        r matches Some(b) ==> b != 0,
{
    let mut one: Vec<u8> = Vec::new();
    one.push(0);
    let mut n: u64 = 0;
    while n < RANDOM_DRAWS
        invariant
            one@.len() == 1,
        decreases RANDOM_DRAWS - n,
    {
        if !crypto::fill_random(one.as_mut_slice()) {
            return None;
        }
        if one[0] != 0 {
            return Some(one[0]);
        }
        n += 1;
    }
    None
}

/// PKCS#1 v1.5 encryption block of `modulus_len` bytes around `plaintext`
/// with a random padding string free of zero bytes. Refused when fewer than
/// 8 padding bytes would remain (for a modulus of 11 bytes or more); the random source failing (or giving only
/// zero bytes for a padding byte, [`RANDOM_DRAWS`] times) is a device error.
pub fn pkcs1_v15_encrypt_block(modulus_len: usize, plaintext: &[u8]) -> (r: Result<Vec<u8>, CK_RV>)
    requires
        plaintext@.len() > 0 || modulus_len >= 3,
    ensures
        plaintext@.len() > room11(modulus_len as nat) ==> r == Err::<Vec<u8>, CK_RV>(CKR_DATA_LEN_RANGE),
        plaintext@.len() <= room11(modulus_len as nat) ==> match r {
            Ok(em) => is_type2_block_of(em@, plaintext@, modulus_len as nat),
            Err(e) => e == CKR_DEVICE_ERROR,
        },
{
    let limit = if modulus_len >= 11 { modulus_len - 11 } else { 0 };
    if plaintext.len() > limit {
        return Err(CKR_DATA_LEN_RANGE);
    }
    let ps_len = modulus_len - plaintext.len() - 3;
    let mut ps: Vec<u8> = Vec::new();
    while ps.len() < ps_len
        invariant
            ps@.len() <= ps_len,
        decreases ps_len - ps@.len(),
    {
        ps.push(0);
    }
    if !crypto::fill_random(ps.as_mut_slice()) {
        return Err(CKR_DEVICE_ERROR);
    }
    let mut i: usize = 0;
    while i < ps.len()
        invariant
            i <= ps@.len(),
            ps@.len() == ps_len,
            plaintext@.len() <= room11(modulus_len as nat),
            forall|j: int| 0 <= j < i ==> ps@[j] != 0,
        decreases ps@.len() - i,
    {
        if ps[i] == 0 {
            match nonzero_random_byte() {
                Some(b) => ps.set(i, b),
                None => return Err(CKR_DEVICE_ERROR),
            }
        }
        i += 1;
    }
    Ok(type2_block_with(modulus_len, plaintext, &ps))
}

/// The PKCS#1 v1.5 encryption block of `modulus_len` bytes around
/// `plaintext` with the padding string `ps` (as long as the block leaves
/// room for, and free of zero bytes): `00 02 ps 00 plaintext`.
pub fn type2_block_with(modulus_len: usize, plaintext: &[u8], ps: &[u8]) -> (em: Vec<u8>)
    requires
        ps@.len() + plaintext@.len() + 3 == modulus_len,
        forall|j: int| 0 <= j < ps@.len() ==> ps@[j] != 0,
    ensures
        em@ == type2_block(plaintext@, ps@),
        is_type2_block_of(em@, plaintext@, modulus_len as nat),
{
    let mut em: Vec<u8> = Vec::new();
    em.push(0x00);
    em.push(0x02);
    em.extend_from_slice(ps);
    em.push(0x00);
    em.extend_from_slice(plaintext);
    assert(em@ =~= type2_block(plaintext@, ps@));
    assert(em@.subrange(2, modulus_len - plaintext@.len() - 1) =~= ps@);
    em
}

/// EMSA-PKCS1-v1_5 encoding of `payload` into `modulus_len` bytes
/// (`00 01 FF..FF 00 payload`); refused when fewer than 8 padding bytes
/// would remain (for a modulus of 11 bytes or more).
pub fn emsa_pkcs1_v15(payload: &[u8], modulus_len: usize) -> (r: Result<Vec<u8>, CK_RV>)
    requires
        payload@.len() > 0 || modulus_len >= 3,
    ensures
        payload@.len() > room11(modulus_len as nat) ==> r == Err::<Vec<u8>, CK_RV>(CKR_DATA_LEN_RANGE),
        payload@.len() <= room11(modulus_len as nat) ==> (r matches Ok(v) && v@ == type1_block(payload@, modulus_len as nat)),
{
    let limit = if modulus_len >= 11 { modulus_len - 11 } else { 0 };
    if payload.len() > limit {
        return Err(CKR_DATA_LEN_RANGE);
    }
    let separator = modulus_len - payload.len() - 1;
    let mut encoded: Vec<u8> = Vec::new();
    encoded.push(0x00);
    encoded.push(0x01);
    while encoded.len() < separator
        invariant
            2 <= encoded@.len() <= separator,
            separator == modulus_len - payload@.len() - 1,
            encoded@ == seq![0u8, 1u8] + Seq::new((encoded@.len() - 2) as nat, |i: int| 0xFFu8),
        decreases separator - encoded@.len(),
    {
        encoded.push(0xFF);
        assert(encoded@ =~= seq![0u8, 1u8] + Seq::new((encoded@.len() - 2) as nat, |i: int| 0xFFu8));
    }
    encoded.push(0x00);
    encoded.extend_from_slice(payload);
    assert(encoded@ =~= type1_block(payload@, modulus_len as nat));
    Ok(encoded)
}

/// A string that starts with a nonzero byte has a value of at least
/// `256^(len - 1)`.
pub proof fn lemma_be_value_lead(s: Seq<u8>)
    requires
        s.len() >= 1,
        s[0] != 0,
    ensures
        be_value(s) >= byte_range((s.len() - 1) as nat),
    decreases s.len(),
{
    if s.len() > 1 {
        lemma_be_value_lead(s.drop_last());
    }
}

/// Zero bytes in front leave the value unchanged.
pub proof fn lemma_be_value_zero_prefix(z: Seq<u8>, s: Seq<u8>)
    requires
        forall|i: int| 0 <= i < z.len() ==> z[i] == 0,
    ensures
        be_value(z + s) == be_value(s),
    decreases z.len() + s.len(),
{
    if s.len() == 0 {
        assert(z + s =~= z);
        if z.len() > 0 {
            assert(z.drop_last() + s =~= z.drop_last());
            lemma_be_value_zero_prefix(z.drop_last(), s);
        }
    } else {
        assert((z + s).drop_last() =~= z + s.drop_last());
        lemma_be_value_zero_prefix(z, s.drop_last());
    }
}

/// The value, as `modulus.len()` big-endian bytes, of `input` raised to
/// `exponent` modulo `modulus`.
pub open spec fn rsa_public_value(modulus: Seq<u8>, exponent: Seq<u8>, input: Seq<u8>) -> int {
    pow(be_value(input) as int, be_value(exponent)) % (be_value(modulus) as int)
}

/// Why the RSA public operation refuses its input, if it does: empty
/// strings or an input not as long as the modulus; a zero modulus or
/// exponent, or an input not below the modulus.
pub open spec fn rsa_crypt_refusal(modulus: Seq<u8>, exponent: Seq<u8>, input: Seq<u8>) -> Option<CK_RV> {
    if modulus.len() == 0 || exponent.len() == 0 || input.len() != modulus.len() {
        Some(CKR_ARGUMENTS_BAD)
    } else if be_value(modulus) == 0 || be_value(exponent) == 0 || be_value(input) >= be_value(modulus) {
        Some(CKR_DATA_LEN_RANGE)
    } else {
        None
    }
}

/// `out` is the RSA public operation's result on `input`: modulus-length
/// bytes whose value is `input^exponent mod modulus`.
pub open spec fn rsa_crypt_gives(modulus: Seq<u8>, exponent: Seq<u8>, input: Seq<u8>, out: Seq<u8>) -> bool {
    out.len() == modulus.len() && be_value(out) == rsa_public_value(modulus, exponent, input)
}

/// The RSA public operation `input^exponent mod modulus`, as many bytes as
/// the modulus. Refused when a string is empty or the input is not as long
/// as the modulus, and when the modulus or exponent is zero or the input is
/// not below the modulus.
pub fn rsa_public_crypt(modulus: &[u8], exponent: &[u8], input: &[u8]) -> (r: Result<Vec<u8>, CK_RV>)
    ensures
        match rsa_crypt_refusal(modulus@, exponent@, input@) {
            Some(e) => r == Err::<Vec<u8>, CK_RV>(e),
            None => r matches Ok(v) && rsa_crypt_gives(modulus@, exponent@, input@, v@),
        },
        modulus@.len() == 0 || exponent@.len() == 0 || input@.len() != modulus@.len()
            ==> r == Err::<Vec<u8>, CK_RV>(CKR_ARGUMENTS_BAD),
        !(modulus@.len() == 0 || exponent@.len() == 0 || input@.len() != modulus@.len()) ==> {
            if be_value(modulus@) == 0 || be_value(exponent@) == 0 || be_value(input@) >= be_value(modulus@) {
                r == Err::<Vec<u8>, CK_RV>(CKR_DATA_LEN_RANGE)
            } else {
                r matches Ok(v) && v@.len() == modulus@.len() && be_value(v@) == rsa_public_value(modulus@, exponent@, input@)
            }
        },
{
    if modulus.len() == 0 || exponent.len() == 0 || input.len() != modulus.len() {
        return Err(CKR_ARGUMENTS_BAD);
    }
    if crypto::biguint_is_zero(modulus) || crypto::biguint_is_zero(exponent) || crypto::biguint_ge(input, modulus) {
        return Err(CKR_DATA_LEN_RANGE);
    }
    let out = crypto::biguint_modpow(input, exponent, modulus);
    if out.len() > modulus.len() {
        proof {
            let v = rsa_public_value(modulus@, exponent@, input@);
            assert(0 <= v < be_value(modulus@));
            lemma_be_value_lead(out@);
            lemma_be_value_bound(modulus@);
            lemma_byte_range_mono(modulus@.len(), (out@.len() - 1) as nat);
        }
        return Err(CKR_FUNCTION_FAILED);
    }
    let mut padded: Vec<u8> = Vec::new();
    while padded.len() < modulus.len() - out.len()
        invariant
            padded@.len() <= modulus@.len() - out@.len(),
            out@.len() <= modulus@.len(),
            forall|i: int| 0 <= i < padded@.len() ==> padded@[i] == 0,
        decreases modulus@.len() - out@.len() - padded@.len(),
    {
        padded.push(0);
    }
    let ghost zeros = padded@;
    padded.extend_from_slice(&out);
    proof {
        lemma_be_value_zero_prefix(zeros, out@);
        assert(padded@ =~= zeros + out@);
    }
    Ok(padded)
}

/// PKCS#1 v1.5 signature verification status: the signature must be as
/// long as the modulus, below it (with a nonzero modulus and exponent), and
/// its public value, as modulus-length bytes, must be the EMSA encoding of
/// `payload`.
pub open spec fn pkcs1_verify_rv(modulus: Seq<u8>, exponent: Seq<u8>, payload: Seq<u8>, signature: Seq<u8>) -> CK_RV {
    let k = modulus.len();
    if signature.len() != k {
        CKR_SIGNATURE_LEN_RANGE
    } else if be_value(modulus) == 0 || be_value(exponent) == 0 || be_value(signature) >= be_value(modulus) {
        CKR_SIGNATURE_INVALID
    } else if payload.len() > room11(k) {
        CKR_DATA_LEN_RANGE
    } else if rsa_public_value(modulus, exponent, signature) == be_value(type1_block(payload, k)) {
        CKR_OK
    } else {
        CKR_SIGNATURE_INVALID
    }
}

/// Verify a PKCS#1 v1.5 signature of `payload` (already a DigestInfo or raw
/// data) with the public key `(modulus, exponent)`.
pub fn verify_rsa_pkcs1_v15(modulus: &[u8], exponent: &[u8], payload: &[u8], signature: &[u8]) -> (rv: CK_RV)
    requires
        payload@.len() > 0 || modulus@.len() >= 3,
    ensures
        rv == pkcs1_verify_rv(modulus@, exponent@, payload@, signature@),
{
    let modulus_len = modulus.len();
    if signature.len() != modulus_len {
        return CKR_SIGNATURE_LEN_RANGE;
    }
    if crypto::biguint_is_zero(modulus) || crypto::biguint_is_zero(exponent) || crypto::biguint_ge(signature, modulus) {
        return CKR_SIGNATURE_INVALID;
    }
    let recovered = crypto::biguint_modpow(signature, exponent, modulus);
    if recovered.len() > modulus_len {
        proof {
            lemma_be_value_lead(recovered@);
            lemma_be_value_bound(modulus@);
            lemma_byte_range_mono(modulus@.len(), (recovered@.len() - 1) as nat);
        }
        return CKR_SIGNATURE_INVALID;
    }
    let mut encoded: Vec<u8> = Vec::new();
    while encoded.len() < modulus_len - recovered.len()
        invariant
            encoded@.len() <= modulus_len - recovered@.len(),
            recovered@.len() <= modulus_len,
            forall|i: int| 0 <= i < encoded@.len() ==> encoded@[i] == 0,
        decreases modulus_len - recovered@.len() - encoded@.len(),
    {
        encoded.push(0);
    }
    let ghost zeros = encoded@;
    encoded.extend_from_slice(&recovered);
    proof {
        lemma_be_value_zero_prefix(zeros, recovered@);
        assert(encoded@ =~= zeros + recovered@);
    }
    let expected = match emsa_pkcs1_v15(payload, modulus_len) {
        Ok(v) => v,
        Err(rv) => return rv,
    };
    let same = bytes_eq(&encoded, &expected);
    proof {
        lemma_be_value_bound(modulus@);
        if !same && be_value(encoded@) == be_value(expected@) {
            lemma_be_value_injective(encoded@, expected@);
        }
    }
    if same { CKR_OK } else { CKR_SIGNATURE_INVALID }
}

/// Strings of one length with one value are equal.
pub proof fn lemma_be_value_injective(a: Seq<u8>, b: Seq<u8>)
    requires
        a.len() == b.len(),
        be_value(a) == be_value(b),
    ensures
        a == b,
    decreases a.len(),
{
    if a.len() > 0 {
        assert(a.last() == b.last());
        lemma_be_value_injective(a.drop_last(), b.drop_last());
        assert(a =~= a.drop_last().push(a.last()));
        assert(b =~= b.drop_last().push(b.last()));
    }
}

/// Raw RSA (`CKM_RSA_X_509`) verification status: data and signature must
/// be as long as the modulus, and the public value of the signature must be
/// the data.
pub open spec fn x509_verify_rv(modulus: Seq<u8>, exponent: Seq<u8>, data: Seq<u8>, signature: Seq<u8>) -> CK_RV {
    let k = modulus.len();
    if data.len() != k {
        CKR_DATA_LEN_RANGE
    } else if signature.len() != k {
        CKR_SIGNATURE_LEN_RANGE
    } else if k == 0 || exponent.len() == 0 {
        CKR_ARGUMENTS_BAD
    } else if be_value(modulus) == 0 || be_value(exponent) == 0 || be_value(signature) >= be_value(modulus) {
        CKR_DATA_LEN_RANGE
    } else if rsa_public_value(modulus, exponent, signature) == be_value(data) {
        CKR_OK
    } else {
        CKR_SIGNATURE_INVALID
    }
}

/// Verify a raw RSA signature: its public value must be `data` itself.
pub fn verify_rsa_x509(modulus: &[u8], exponent: &[u8], data: &[u8], signature: &[u8]) -> (rv: CK_RV)
    ensures
        rv == x509_verify_rv(modulus@, exponent@, data@, signature@),
{
    let modulus_len = modulus.len();
    if data.len() != modulus_len {
        return CKR_DATA_LEN_RANGE;
    }
    if signature.len() != modulus_len {
        return CKR_SIGNATURE_LEN_RANGE;
    }
    match rsa_public_crypt(modulus, exponent, signature) {
        Ok(recovered) => {
            let same = bytes_eq(&recovered, data);
            proof {
                if !same && be_value(recovered@) == be_value(data@) {
                    lemma_be_value_injective(recovered@, data@);
                }
            }
            if same { CKR_OK } else { CKR_SIGNATURE_INVALID }
        },
        Err(rv) => rv,
    }
}

/// Number of slots the module offers at most.
pub const MAX_SLOTS: usize = 8;
/// Number of sessions open at once at most.
pub const MAX_SESSIONS: usize = 16;
/// Longest PIN, where the token states none.
pub const PIN_MAX: u64 = 10;
/// Length of the RSA keys the cards hold, in bytes.
pub const RSA_MODULUS_LEN: usize = 256;

/// Digest algorithm of a digest operation.
#[derive(Clone, Copy, PartialEq, Eq, Structural)]
pub enum DigestAlg {
    Md5,
    Sha1,
    Sha256,
    Sha384,
    Sha512,
}

/// A digest in progress: its algorithm and the bytes given to it so far.
pub struct DigestCtx {
    pub alg: DigestAlg,
    pub absorbed: Vec<u8>,
}

/// One session and the operations active in it.
pub struct Session {
    pub in_use: bool,
    pub slot: CK_SLOT_ID,
    pub flags: CK_FLAGS,
    pub state: CK_STATE,
    pub logged_in: bool,
    pub find_active: bool,
    pub find_handles: Vec<CK_OBJECT_HANDLE>,
    pub find_pos: usize,
    pub sign_active: bool,
    pub sign_key: CK_OBJECT_HANDLE,
    pub sign_mech: CK_MECHANISM_TYPE,
    pub sign_buf: Vec<u8>,
    pub decrypt_active: bool,
    pub decrypt_key: CK_OBJECT_HANDLE,
    pub decrypt_mech: CK_MECHANISM_TYPE,
    pub decrypt_buf: Vec<u8>,
    pub decrypt_plain: Option<Vec<u8>>,
    pub decrypt_oaep_hash: CK_MECHANISM_TYPE,
    pub decrypt_oaep_label: Vec<u8>,
    pub verify_active: bool,
    pub verify_key: CK_OBJECT_HANDLE,
    pub verify_mech: CK_MECHANISM_TYPE,
    pub verify_buf: Vec<u8>,
    pub digest_active: bool,
    pub digest_ctx: Option<DigestCtx>,
    pub encrypt_active: bool,
    pub encrypt_key: CK_OBJECT_HANDLE,
    pub encrypt_mech: CK_MECHANISM_TYPE,
    pub encrypt_buf: Vec<u8>,
    pub encrypt_cipher: Option<Vec<u8>>,
    pub encrypt_oaep_hash: CK_MECHANISM_TYPE,
    pub encrypt_oaep_label: Vec<u8>,
}

/// A closed session with no operation: read-only public state, the OAEP
/// hashes SHA-256, all buffers empty.
pub open spec fn is_fresh_session(s: Session) -> bool {
    &&& !s.in_use && s.slot == 0 && s.flags == 0 && s.state == CKS_RO_PUBLIC_SESSION && !s.logged_in
    &&& !s.find_active && s.find_handles@.len() == 0 && s.find_pos == 0
    &&& !s.sign_active && s.sign_key == 0 && s.sign_mech == 0 && s.sign_buf@.len() == 0
    &&& !s.decrypt_active && s.decrypt_key == 0 && s.decrypt_mech == 0 && s.decrypt_buf@.len() == 0
    &&& s.decrypt_plain is None && s.decrypt_oaep_hash == CKM_SHA256 && s.decrypt_oaep_label@.len() == 0
    &&& !s.verify_active && s.verify_key == 0 && s.verify_mech == 0 && s.verify_buf@.len() == 0
    &&& !s.digest_active && s.digest_ctx is None
    &&& !s.encrypt_active && s.encrypt_key == 0 && s.encrypt_mech == 0 && s.encrypt_buf@.len() == 0
    &&& s.encrypt_cipher is None && s.encrypt_oaep_hash == CKM_SHA256 && s.encrypt_oaep_label@.len() == 0
}

impl Default for Session {
    fn default() -> (s: Self)
        ensures
            is_fresh_session(s),
    {
        Session {
            in_use: false,
            slot: 0,
            flags: 0,
            state: CKS_RO_PUBLIC_SESSION,
            logged_in: false,
            find_active: false,
            find_handles: Vec::new(),
            find_pos: 0,
            sign_active: false,
            sign_key: 0,
            sign_mech: 0,
            sign_buf: Vec::new(),
            decrypt_active: false,
            decrypt_key: 0,
            decrypt_mech: 0,
            decrypt_buf: Vec::new(),
            decrypt_plain: None,
            decrypt_oaep_hash: CKM_SHA256,
            decrypt_oaep_label: Vec::new(),
            verify_active: false,
            verify_key: 0,
            verify_mech: 0,
            verify_buf: Vec::new(),
            digest_active: false,
            digest_ctx: None,
            encrypt_active: false,
            encrypt_key: 0,
            encrypt_mech: 0,
            encrypt_buf: Vec::new(),
            encrypt_cipher: None,
            encrypt_oaep_hash: CKM_SHA256,
            encrypt_oaep_label: Vec::new(),
        }
    }
}

/// A session after its slot's login state became `logged_in`.
pub open spec fn with_login(s: Session, slot_id: CK_SLOT_ID, logged_in: bool) -> Session {
    if s.in_use && s.slot == slot_id {
        Session { logged_in, state: session_state_of(s.flags, logged_in), ..s }
    } else {
        s
    }
}

/// Give every open session of slot `slot_id` the slot's login state: the
/// login flag and the session state that goes with it.
pub fn set_slot_sessions_login_state(sessions: &mut [Session], slot_id: CK_SLOT_ID, logged_in: bool)
    ensures
        final(sessions)@.len() == old(sessions)@.len(),
        forall|i: int| 0 <= i < old(sessions)@.len() ==>
            #[trigger] final(sessions)@[i] == with_login(old(sessions)@[i], slot_id, logged_in),
{
    let mut i: usize = 0;
    while i < sessions.len()
        invariant
            i <= sessions@.len(),
            sessions@.len() == old(sessions)@.len(),
            forall|j: int| 0 <= j < i ==> #[trigger] sessions@[j] == with_login(old(sessions)@[j], slot_id, logged_in),
            forall|j: int| i <= j < sessions@.len() ==> #[trigger] sessions@[j] == old(sessions)@[j],
        decreases sessions@.len() - i,
    {
        if sessions[i].in_use && sessions[i].slot == slot_id {
            let st = session_state(sessions[i].flags, logged_in);
            sessions[i].logged_in = logged_in;
            sessions[i].state = st;
        }
        i += 1;
    }
}

/// One slot: a PC/SC reader and the token last read from its card.
pub struct Slot {
    pub present: bool,
    pub logged_in: bool,
    pub reader: String,
    pub connected: bool,
    pub token: Token,
}

/// Everything the module knows: whether it is initialized, its slots, its
/// sessions, and the state of the card conversation (class byte, profile
/// and secure-channel state), which all slots share.
pub struct State {
    pub initialized: bool,
    pub slots: Vec<Slot>,
    pub sessions: Vec<Session>,
    pub card: Connection,
}

impl State {
    /// The module's invariant: a fixed table of sessions, at most
    /// [`MAX_SLOTS`] slots (none before initialization), and every open
    /// session on an existing slot, sharing that slot's login state.
    pub open spec fn wf(&self) -> bool {
        &&& self.sessions@.len() == MAX_SESSIONS
        &&& self.slots@.len() <= MAX_SLOTS
        &&& !self.initialized ==> self.slots@.len() == 0
        &&& self.card.wf()
        &&& forall|i: int| 0 <= i < self.sessions@.len() && #[trigger] self.sessions@[i].in_use ==> {
            &&& self.sessions@[i].slot < self.slots@.len()
            &&& self.sessions@[i].logged_in == self.slots@[self.sessions@[i].slot as int].logged_in
            &&& self.sessions@[i].state == session_state_of(self.sessions@[i].flags, self.sessions@[i].logged_in)
        }
    }

    /// A module not yet initialized.
    pub fn new() -> (st: Self)
        ensures
            st.wf(),
            !st.initialized,
            st.slots@.len() == 0,
            forall|i: int| 0 <= i < st.sessions@.len() ==> is_fresh_session(#[trigger] st.sessions@[i]),
            st.card.card == initial_state(),
    {
        let mut sessions: Vec<Session> = Vec::new();
        while sessions.len() < MAX_SESSIONS
            invariant
                sessions@.len() <= MAX_SESSIONS,
                forall|i: int| 0 <= i < sessions@.len() ==> is_fresh_session(#[trigger] sessions@[i]),
            decreases MAX_SESSIONS - sessions@.len(),
        {
            sessions.push(Session::default());
        }
        State { initialized: false, slots: Vec::new(), sessions, card: Connection::new() }
    }
}

/// Index of the open session with handle `h` (handles count from 1).
pub open spec fn session_index(st: State, h: CK_SESSION_HANDLE) -> Option<int> {
    if h == 0 || h > MAX_SESSIONS || h > st.sessions@.len() {
        None
    } else if st.sessions@[h - 1].in_use {
        Some(h - 1)
    } else {
        None
    }
}

fn session_of(st: &State, h: CK_SESSION_HANDLE) -> (r: Option<usize>)
    ensures
        match session_index(*st, h) {
            Some(i) => r == Some(i as usize),
            None => r is None,
        },
{
    if h == 0 || h > MAX_SESSIONS as u64 || h > st.sessions.len() as u64 {
        return None;
    }
    let i = (h - 1) as usize;
    if st.sessions[i].in_use { Some(i) } else { None }
}

/// Slots for the first [`MAX_SLOTS`] readers, each present, logged out,
/// not connected, with a default token.
pub open spec fn fresh_slots(slots: Seq<Slot>, readers: Seq<String>) -> bool {
    &&& slots.len() == if readers.len() < MAX_SLOTS { readers.len() } else { MAX_SLOTS as nat }
    &&& forall|i: int| 0 <= i < slots.len() ==> {
        &&& #[trigger] slots[i].present
        &&& !slots[i].logged_in
        &&& slots[i].reader@ == readers[i]@
        &&& !slots[i].connected
        &&& is_default_token(slots[i].token)
    }
}

/// `C_Initialize` given the readers PC/SC lists (`None` where no PC/SC
/// context could be had): one present slot per reader, at most
/// [`MAX_SLOTS`].
pub fn c_initialize(st: &mut State, readers: Option<Vec<String>>) -> (rv: CK_RV)
    requires
        old(st).wf(),
    ensures
        final(st).wf(),
        old(st).initialized ==> rv == CKR_CRYPTOKI_ALREADY_INITIALIZED && *final(st) == *old(st),
        !old(st).initialized && readers is None ==> rv == CKR_DEVICE_ERROR && *final(st) == *old(st),
        !old(st).initialized && readers is Some ==> {
            &&& rv == CKR_OK
            &&& final(st).initialized
            &&& fresh_slots(final(st).slots@, readers->0@)
            &&& final(st).sessions == old(st).sessions
            &&& final(st).card == old(st).card
        },
{
    if st.initialized {
        return CKR_CRYPTOKI_ALREADY_INITIALIZED;
    }
    let readers = match readers {
        Some(r) => r,
        None => return CKR_DEVICE_ERROR,
    };
    proof {
        assert forall|i: int| 0 <= i < st.sessions@.len() implies !(#[trigger] st.sessions@[i].in_use) by {
            if st.sessions@[i].in_use {
                assert(st.sessions@[i].slot < st.slots@.len());
            }
        }
    }
    let mut slots: Vec<Slot> = Vec::new();
    let mut i: usize = 0;
    while i < readers.len() && i < MAX_SLOTS
        invariant
            i <= readers@.len(),
            i <= MAX_SLOTS,
            slots@.len() == i,
            forall|j: int| 0 <= j < i ==> {
                &&& #[trigger] slots@[j].present
                &&& !slots@[j].logged_in
                &&& slots@[j].reader@ == readers@[j]@
                &&& !slots@[j].connected
                &&& is_default_token(slots@[j].token)
            },
        decreases MAX_SLOTS - i,
    {
        slots.push(Slot { present: true, logged_in: false, reader: readers[i].clone(), connected: false, token: Token::default() });
        i += 1;
    }
    st.slots = slots;
    st.initialized = true;
    CKR_OK
}

/// `C_Finalize`: close every session and forget the slots.
pub fn c_finalize(st: &mut State) -> (rv: CK_RV)
    requires
        old(st).wf(),
    ensures
        final(st).wf(),
        !old(st).initialized ==> rv == CKR_CRYPTOKI_NOT_INITIALIZED && *final(st) == *old(st),
        old(st).initialized ==> {
            &&& rv == CKR_OK
            &&& !final(st).initialized
            &&& final(st).slots@.len() == 0
            &&& final(st).sessions@.len() == old(st).sessions@.len()
            &&& forall|i: int| 0 <= i < old(st).sessions@.len() ==>
                #[trigger] final(st).sessions@[i] == (Session { in_use: false, ..old(st).sessions@[i] })
            &&& final(st).card == old(st).card
        },
{
    if !st.initialized {
        return CKR_CRYPTOKI_NOT_INITIALIZED;
    }
    let mut i: usize = 0;
    while i < st.sessions.len()
        invariant
            i <= st.sessions@.len(),
            st.sessions@.len() == old(st).sessions@.len(),
            st.card == old(st).card,
            forall|j: int| 0 <= j < i ==> #[trigger] st.sessions@[j] == (Session { in_use: false, ..old(st).sessions@[j] }),
            forall|j: int| i <= j < st.sessions@.len() ==> #[trigger] st.sessions@[j] == old(st).sessions@[j],
        decreases st.sessions@.len() - i,
    {
        st.sessions[i].in_use = false;
        i += 1;
    }
    st.slots = Vec::new();
    st.initialized = false;
    CKR_OK
}

/// `C_GetInfo`: library information, when the caller gave a place for it.
pub fn c_get_info(st: &State, has_out: bool) -> (r: (CK_RV, Option<CK_INFO>))
    ensures
        !st.initialized ==> r.0 == CKR_CRYPTOKI_NOT_INITIALIZED && r.1 is None,
        st.initialized && !has_out ==> r.0 == CKR_ARGUMENTS_BAD && r.1 is None,
        st.initialized && has_out ==> r.0 == CKR_OK && (r.1 matches Some(info) && {
            &&& info.cryptokiVersion.major == 2 && info.cryptokiVersion.minor == 40
            &&& info.manufacturerID@ == blank_filled("openhicos".spec_bytes(), 32)
            &&& info.flags == 0
            &&& info.libraryDescription@ == blank_filled("openhicos PKCS#11".spec_bytes(), 32)
            &&& info.libraryVersion.major == 0 && info.libraryVersion.minor == 2
        }),
{
    if !st.initialized {
        return (CKR_CRYPTOKI_NOT_INITIALIZED, None);
    }
    if !has_out {
        return (CKR_ARGUMENTS_BAD, None);
    }
    let mut manufacturer = [0u8; 32];
    fill_blank(&mut manufacturer, "openhicos");
    let mut description = [0u8; 32];
    fill_blank(&mut description, "openhicos PKCS#11");
    let info = CK_INFO {
        cryptokiVersion: CK_VERSION { major: 2, minor: 40 },
        manufacturerID: manufacturer,
        flags: 0,
        libraryDescription: description,
        libraryVersion: CK_VERSION { major: 0, minor: 2 },
    };
    (CKR_OK, Some(info))
}

/// The slots listed for `token_present`: all of them, or (when it is set)
/// those with a token present.
pub open spec fn listed_slots(slots: Seq<Slot>, token_present: CK_BBOOL) -> Seq<CK_SLOT_ID>
    decreases slots.len(),
{
    if slots.len() == 0 {
        Seq::empty()
    } else {
        let rest = listed_slots(slots.drop_last(), token_present);
        if token_present != CK_FALSE && !slots.last().present {
            rest
        } else {
            rest.push((slots.len() - 1) as CK_SLOT_ID)
        }
    }
}

/// `C_GetSlotList`: the slot identifiers written into a list of room
/// `list_cap` (`None` where the caller only asks for the count), and the
/// count reported. When the list is too small the identifiers that fit are
/// written and no count is reported.
pub fn c_get_slot_list(st: &State, token_present: CK_BBOOL, list_cap: Option<CK_ULONG>, has_count: bool)
    -> (r: (CK_RV, Vec<CK_SLOT_ID>, Option<CK_ULONG>))
    requires
        st.wf(),
    ensures
        !st.initialized ==> r.0 == CKR_CRYPTOKI_NOT_INITIALIZED && r.1@.len() == 0 && r.2 is None,
        st.initialized && !has_count ==> r.0 == CKR_ARGUMENTS_BAD && r.1@.len() == 0 && r.2 is None,
        st.initialized && has_count ==> ({
            let ids = listed_slots(st.slots@, token_present);
            match list_cap {
                None => r.0 == CKR_OK && r.1@.len() == 0 && r.2 == Some(ids.len() as CK_ULONG),
                Some(cap) => if ids.len() > cap {
                    r.0 == CKR_BUFFER_TOO_SMALL && r.1@ == ids.take(cap as int) && r.2 is None
                } else {
                    r.0 == CKR_OK && r.1@ == ids && r.2 == Some(ids.len() as CK_ULONG)
                },
            }
        }),
{
    if !st.initialized {
        return (CKR_CRYPTOKI_NOT_INITIALIZED, Vec::new(), None);
    }
    if !has_count {
        return (CKR_ARGUMENTS_BAD, Vec::new(), None);
    }
    let mut written: Vec<CK_SLOT_ID> = Vec::new();
    let mut n: u64 = 0;
    let mut i: usize = 0;
    while i < st.slots.len()
        invariant
            st.wf(),
            st.initialized && has_count,
            i <= st.slots@.len(),
            n == listed_slots(st.slots@.take(i as int), token_present).len(),
            n <= i,
            list_cap matches Some(cap) ==> n <= cap && written@ == listed_slots(st.slots@.take(i as int), token_present),
            list_cap is None ==> written@.len() == 0,
        decreases st.slots@.len() - i,
    {
        let ghost before = listed_slots(st.slots@.take(i as int), token_present);
        assert(st.slots@.take(i + 1).drop_last() =~= st.slots@.take(i as int));
        if token_present != CK_FALSE && !st.slots[i].present {
            i += 1;
            continue;
        }
        if let Some(cap) = list_cap {
            if n >= cap {
                proof {
                    lemma_listed_prefix(st.slots@, token_present, i as int + 1);
                    assert(before.push(i as CK_SLOT_ID) == listed_slots(st.slots@.take(i + 1), token_present));
                    assert(written@ =~= listed_slots(st.slots@, token_present).take(cap as int));
                }
                return (CKR_BUFFER_TOO_SMALL, written, None);
            }
            written.push(i as CK_SLOT_ID);
        }
        n += 1;
        i += 1;
    }
    assert(st.slots@.take(i as int) =~= st.slots@);
    (CKR_OK, written, Some(n))
}

/// The listing of a prefix of the slots is a prefix of the listing, and the
/// listing is no shorter than the prefix's.
proof fn lemma_listed_prefix(slots: Seq<Slot>, tp: CK_BBOOL, k: int)
    requires
        0 <= k <= slots.len(),
    ensures
        listed_slots(slots.take(k), tp).len() <= listed_slots(slots, tp).len(),
        listed_slots(slots, tp).take(listed_slots(slots.take(k), tp).len() as int) == listed_slots(slots.take(k), tp),
    decreases slots.len() - k,
{
    if k < slots.len() {
        lemma_listed_prefix(slots, tp, k + 1);
        assert(slots.take(k + 1).drop_last() =~= slots.take(k));
        let a = listed_slots(slots.take(k), tp);
        let b = listed_slots(slots.take(k + 1), tp);
        let full = listed_slots(slots, tp);
        assert(b.take(a.len() as int) =~= a);
        assert(full.take(a.len() as int) =~= full.take(b.len() as int).take(a.len() as int));
    } else {
        assert(slots.take(k) =~= slots);
        assert(listed_slots(slots, tp).take(listed_slots(slots, tp).len() as int) =~= listed_slots(slots, tp));
    }
}

/// Slot flags: a removable hardware slot, with a token where one is present.
pub open spec fn slot_flags(present: bool) -> CK_FLAGS {
    CKF_HW_SLOT | CKF_REMOVABLE_DEVICE | (if present { CKF_TOKEN_PRESENT } else { 0 })
}

/// `C_GetSlotInfo`: the reader's name and the slot flags.
pub fn c_get_slot_info(st: &State, slot_id: CK_SLOT_ID, has_out: bool) -> (r: (CK_RV, Option<CK_SLOT_INFO>))
    ensures
        !st.initialized ==> r.0 == CKR_CRYPTOKI_NOT_INITIALIZED && r.1 is None,
        st.initialized && (slot_id >= st.slots@.len() || !has_out) ==> r.0 == CKR_ARGUMENTS_BAD && r.1 is None,
        st.initialized && slot_id < st.slots@.len() && has_out ==> r.0 == CKR_OK && (r.1 matches Some(info) && {
            let slot = st.slots@[slot_id as int];
            &&& info.slotDescription@ == blank_filled(encode_utf8(slot.reader@), 64)
            &&& info.manufacturerID@ == blank_filled("PC/SC".spec_bytes(), 32)
            &&& info.flags == slot_flags(slot.present)
            &&& info.hardwareVersion.major == 0 && info.hardwareVersion.minor == 0
            &&& info.firmwareVersion.major == 0 && info.firmwareVersion.minor == 0
        }),
{
    if !st.initialized {
        return (CKR_CRYPTOKI_NOT_INITIALIZED, None);
    }
    if slot_id >= st.slots.len() as u64 || !has_out {
        return (CKR_ARGUMENTS_BAD, None);
    }
    let slot = &st.slots[slot_id as usize];
    let mut description = [0u8; 64];
    fill_blank(&mut description, slot.reader.as_str());
    let mut manufacturer = [0u8; 32];
    fill_blank(&mut manufacturer, "PC/SC");
    let info = CK_SLOT_INFO {
        slotDescription: description,
        manufacturerID: manufacturer,
        flags: CKF_HW_SLOT | CKF_REMOVABLE_DEVICE | (if slot.present { CKF_TOKEN_PRESENT } else { 0 }),
        hardwareVersion: CK_VERSION { major: 0, minor: 0 },
        firmwareVersion: CK_VERSION { major: 0, minor: 0 },
    };
    (CKR_OK, Some(info))
}

/// What a slot's card needs before it can be used.
pub enum CardNeed {
    /// The slot cannot be used: the status to answer.
    Fail(CK_RV),
    /// The reader must be connected to the card, then the token read.
    Connect,
    /// The token must be read.
    Bind,
    /// The token is read.
    Ready,
}

/// What slot `slot_id` needs: it must exist and hold a token; an
/// unconnected card is connected and read, an unread token is read.
pub open spec fn card_need_of(st: State, slot_id: CK_SLOT_ID) -> CardNeed {
    if slot_id >= st.slots@.len() {
        CardNeed::Fail(CKR_SLOT_ID_INVALID)
    } else if !st.slots@[slot_id as int].present {
        CardNeed::Fail(CKR_TOKEN_NOT_PRESENT)
    } else if !st.slots@[slot_id as int].connected {
        CardNeed::Connect
    } else if !st.slots@[slot_id as int].token.bound {
        CardNeed::Bind
    } else {
        CardNeed::Ready
    }
}

/// What the card of slot `slot_id` needs before use.
pub fn card_need(st: &State, slot_id: CK_SLOT_ID) -> (r: CardNeed)
    ensures
        r == card_need_of(*st, slot_id),
{
    if slot_id >= st.slots.len() as u64 {
        CardNeed::Fail(CKR_SLOT_ID_INVALID)
    } else if !st.slots[slot_id as usize].present {
        CardNeed::Fail(CKR_TOKEN_NOT_PRESENT)
    } else if !st.slots[slot_id as usize].connected {
        CardNeed::Connect
    } else if !st.slots[slot_id as usize].token.bound {
        CardNeed::Bind
    } else {
        CardNeed::Ready
    }
}

/// The outcome of connecting the reader of slot `slot_id`: the card
/// conversation starts over (class byte and profile reset) and, where the
/// connection was made, the slot is connected; otherwise the status is a
/// device error.
pub fn card_connected(st: &mut State, slot_id: CK_SLOT_ID, ok: bool) -> (rv: CK_RV)
    requires
        old(st).wf(),
        slot_id < old(st).slots@.len(),
    ensures
        final(st).wf(),
        final(st).card.card == initial_state(),
        final(st).card.auth == old(st).card.auth,
        final(st).sessions == old(st).sessions,
        final(st).initialized == old(st).initialized,
        final(st).slots@.len() == old(st).slots@.len(),
        ok ==> rv == CKR_OK && final(st).slots@ == old(st).slots@.update(
            slot_id as int,
            Slot { connected: true, ..old(st).slots@[slot_id as int] },
        ),
        !ok ==> rv == CKR_DEVICE_ERROR && final(st).slots == old(st).slots,
{
    reset_cla(&mut st.card.card);
    if !ok {
        return CKR_DEVICE_ERROR;
    }
    st.slots[slot_id as usize].connected = true;
    proof {
        assert forall|i: int| 0 <= i < st.sessions@.len() && #[trigger] st.sessions@[i].in_use implies
            st.sessions@[i].logged_in == st.slots@[st.sessions@[i].slot as int].logged_in by {
            assert(old(st).sessions@[i].in_use);
        }
    }
    CKR_OK
}

/// Keep what reading the card of slot `slot_id` gave: its token, and the
/// state of the card conversation after it.
pub fn store_binding(st: &mut State, slot_id: CK_SLOT_ID, token: Token, card: CardState)
    requires
        old(st).wf(),
        slot_id < old(st).slots@.len(),
    ensures
        final(st).wf(),
        final(st).card.card == card,
        final(st).card.auth == old(st).card.auth,
        final(st).sessions == old(st).sessions,
        final(st).initialized == old(st).initialized,
        final(st).slots@ == old(st).slots@.update(slot_id as int, Slot { token, ..old(st).slots@[slot_id as int] }),
{
    st.slots[slot_id as usize].token = token;
    st.card.card = card;
    proof {
        assert forall|i: int| 0 <= i < st.sessions@.len() && #[trigger] st.sessions@[i].in_use implies
            st.sessions@[i].logged_in == st.slots@[st.sessions@[i].slot as int].logged_in by {
            assert(old(st).sessions@[i].in_use);
        }
    }
}

/// The checks of `C_GetTokenInfo` before the card is needed.
pub fn token_info_target(st: &State, slot_id: CK_SLOT_ID, has_out: bool) -> (rv: CK_RV)
    ensures
        rv == if !st.initialized {
            CKR_CRYPTOKI_NOT_INITIALIZED
        } else if slot_id >= st.slots@.len() || !has_out {
            CKR_ARGUMENTS_BAD
        } else if !st.slots@[slot_id as int].present {
            CKR_TOKEN_NOT_PRESENT
        } else {
            CKR_OK
        },
{
    if !st.initialized {
        return CKR_CRYPTOKI_NOT_INITIALIZED;
    }
    if slot_id >= st.slots.len() as u64 || !has_out {
        return CKR_ARGUMENTS_BAD;
    }
    if !st.slots[slot_id as usize].present {
        return CKR_TOKEN_NOT_PRESENT;
    }
    CKR_OK
}

/// Token flags: a random generator, login required, user PIN and token
/// initialized.
pub open spec fn token_flags() -> CK_FLAGS {
    CKF_RNG | CKF_LOGIN_REQUIRED | CKF_USER_PIN_INITIALIZED | CKF_TOKEN_INITIALIZED
}

/// `C_GetTokenInfo` once the card is read: the token's texts and PIN
/// limits ([`PIN_MAX`] and 6 where the token gives none). The clock field is
/// not part of the answer.
pub fn c_get_token_info(st: &State, slot_id: CK_SLOT_ID) -> (info: CK_TOKEN_INFO)
    requires
        slot_id < st.slots@.len(),
    ensures
        info.label@ == blank_filled(encode_utf8(st.slots@[slot_id as int].token.label@), 32),
        info.manufacturerID@ == blank_filled(encode_utf8(st.slots@[slot_id as int].token.manufacturer@), 32),
        info.model@ == blank_filled(encode_utf8(st.slots@[slot_id as int].token.model@), 16),
        info.serialNumber@ == blank_filled(encode_utf8(st.slots@[slot_id as int].token.serial@), 16),
        info.flags == token_flags(),
        info.ulMaxPinLen == if st.slots@[slot_id as int].token.max_pin != 0 { st.slots@[slot_id as int].token.max_pin } else { PIN_MAX },
        info.ulMinPinLen == if st.slots@[slot_id as int].token.min_pin != 0 { st.slots@[slot_id as int].token.min_pin } else { 6 },
        info.ulMaxSessionCount == MAX_SESSIONS && info.ulSessionCount == 0,
        info.ulMaxRwSessionCount == MAX_SESSIONS && info.ulRwSessionCount == 0,
        info.ulTotalPublicMemory == CK_UNAVAILABLE_INFORMATION,
        info.ulFreePublicMemory == CK_UNAVAILABLE_INFORMATION,
        info.ulTotalPrivateMemory == CK_UNAVAILABLE_INFORMATION,
        info.ulFreePrivateMemory == CK_UNAVAILABLE_INFORMATION,
        info.hardwareVersion.major == 1 && info.hardwareVersion.minor == 0,
        info.firmwareVersion.major == 1 && info.firmwareVersion.minor == 0,
{
    let n = st.slots.len();
    let i = slot_id as usize;
    assert(i as int == slot_id as int && n == st.slots@.len());
    let t = &st.slots[i].token;
    let mut label = [0u8; 32];
    fill_blank(&mut label, t.label.as_str());
    let mut manufacturer = [0u8; 32];
    fill_blank(&mut manufacturer, t.manufacturer.as_str());
    let mut model = [0u8; 16];
    fill_blank(&mut model, t.model.as_str());
    let mut serial = [0u8; 16];
    fill_blank(&mut serial, t.serial.as_str());
    let info = CK_TOKEN_INFO {
        label,
        manufacturerID: manufacturer,
        model,
        serialNumber: serial,
        flags: CKF_RNG | CKF_LOGIN_REQUIRED | CKF_USER_PIN_INITIALIZED | CKF_TOKEN_INITIALIZED,
        ulMaxSessionCount: MAX_SESSIONS as CK_ULONG,
        ulSessionCount: 0,
        ulMaxRwSessionCount: MAX_SESSIONS as CK_ULONG,
        ulRwSessionCount: 0,
        ulMaxPinLen: if t.max_pin != 0 { t.max_pin } else { PIN_MAX },
        ulMinPinLen: if t.min_pin != 0 { t.min_pin } else { 6 },
        ulTotalPublicMemory: CK_UNAVAILABLE_INFORMATION,
        ulFreePublicMemory: CK_UNAVAILABLE_INFORMATION,
        ulTotalPrivateMemory: CK_UNAVAILABLE_INFORMATION,
        ulFreePrivateMemory: CK_UNAVAILABLE_INFORMATION,
        hardwareVersion: CK_VERSION { major: 1, minor: 0 },
        firmwareVersion: CK_VERSION { major: 1, minor: 0 },
        utcTime: [0u8; 16],
    };
    info
}

/// The mechanisms the module offers, in the order it lists them.
pub open spec fn mechanism_list() -> Seq<CK_MECHANISM_TYPE> {
    seq![
        CKM_RSA_PKCS, CKM_RSA_X_509, CKM_RSA_PKCS_OAEP, CKM_MD5_RSA_PKCS, CKM_SHA1_RSA_PKCS, CKM_SHA256_RSA_PKCS,
        CKM_SHA384_RSA_PKCS, CKM_SHA512_RSA_PKCS, CKM_MD5, CKM_SHA_1, CKM_SHA256, CKM_SHA384, CKM_SHA512,
    ]
}

/// `C_GetMechanismList`: the list written into room for `list_cap` entries
/// (`None` where only the count is asked), and the count reported. A list
/// too small gets nothing.
pub fn c_get_mechanism_list(st: &State, list_cap: Option<CK_ULONG>, has_count: bool)
    -> (r: (CK_RV, Vec<CK_MECHANISM_TYPE>, Option<CK_ULONG>))
    ensures
        !st.initialized ==> r.0 == CKR_CRYPTOKI_NOT_INITIALIZED && r.1@.len() == 0 && r.2 is None,
        st.initialized && !has_count ==> r.0 == CKR_ARGUMENTS_BAD && r.1@.len() == 0 && r.2 is None,
        st.initialized && has_count ==> match list_cap {
            None => r.0 == CKR_OK && r.1@.len() == 0 && r.2 == Some(mechanism_list().len() as CK_ULONG),
            Some(cap) => if cap < mechanism_list().len() {
                r.0 == CKR_BUFFER_TOO_SMALL && r.1@.len() == 0 && r.2 is None
            } else {
                r.0 == CKR_OK && r.1@ == mechanism_list() && r.2 == Some(mechanism_list().len() as CK_ULONG)
            },
        },
{
    if !st.initialized {
        return (CKR_CRYPTOKI_NOT_INITIALIZED, Vec::new(), None);
    }
    if !has_count {
        return (CKR_ARGUMENTS_BAD, Vec::new(), None);
    }
    let mechs = vec![
        CKM_RSA_PKCS, CKM_RSA_X_509, CKM_RSA_PKCS_OAEP, CKM_MD5_RSA_PKCS, CKM_SHA1_RSA_PKCS, CKM_SHA256_RSA_PKCS,
        CKM_SHA384_RSA_PKCS, CKM_SHA512_RSA_PKCS, CKM_MD5, CKM_SHA_1, CKM_SHA256, CKM_SHA384, CKM_SHA512,
    ];
    assert(mechs@ =~= mechanism_list());
    let n = mechs.len() as CK_ULONG;
    match list_cap {
        None => (CKR_OK, Vec::new(), Some(n)),
        Some(cap) => if cap < n {
            (CKR_BUFFER_TOO_SMALL, Vec::new(), None)
        } else {
            (CKR_OK, mechs, Some(n))
        },
    }
}

/// Key sizes (in bits) and flags of a mechanism the module offers.
pub open spec fn mechanism_info_of(mech: CK_MECHANISM_TYPE) -> Option<(CK_ULONG, CK_ULONG, CK_FLAGS)> {
    if mech == CKM_RSA_PKCS || mech == CKM_RSA_X_509 {
        Some((2048, 2048, CKF_HW | CKF_ENCRYPT | CKF_DECRYPT | CKF_SIGN | CKF_VERIFY))
    } else if mech == CKM_RSA_PKCS_OAEP {
        Some((1024, 2048, CKF_HW | CKF_ENCRYPT | CKF_DECRYPT))
    } else if is_hash_rsa_mech(mech) {
        Some((2048, 2048, CKF_HW | CKF_SIGN | CKF_VERIFY))
    } else if mech == CKM_MD5 || mech == CKM_SHA_1 || mech == CKM_SHA256 || mech == CKM_SHA384 || mech == CKM_SHA512 {
        Some((0, 0, CKF_DIGEST))
    } else {
        None
    }
}

/// `C_GetMechanismInfo`.
pub fn c_get_mechanism_info(st: &State, slot_id: CK_SLOT_ID, mech: CK_MECHANISM_TYPE, has_out: bool)
    -> (r: (CK_RV, Option<CK_MECHANISM_INFO>))
    ensures
        !st.initialized ==> r.0 == CKR_CRYPTOKI_NOT_INITIALIZED && r.1 is None,
        st.initialized && slot_id >= st.slots@.len() ==> r.0 == CKR_SLOT_ID_INVALID && r.1 is None,
        st.initialized && slot_id < st.slots@.len() && !has_out ==> r.0 == CKR_ARGUMENTS_BAD && r.1 is None,
        st.initialized && slot_id < st.slots@.len() && has_out ==> match mechanism_info_of(mech) {
            None => r.0 == CKR_MECHANISM_INVALID && r.1 is None,
            Some((lo, hi, f)) => r.0 == CKR_OK && (r.1 matches Some(i) && i.ulMinKeySize == lo && i.ulMaxKeySize == hi && i.flags == f),
        },
{
    if !st.initialized {
        return (CKR_CRYPTOKI_NOT_INITIALIZED, None);
    }
    if slot_id >= st.slots.len() as u64 {
        return (CKR_SLOT_ID_INVALID, None);
    }
    if !has_out {
        return (CKR_ARGUMENTS_BAD, None);
    }
    let (lo, hi, flags) = if mech == CKM_RSA_PKCS || mech == CKM_RSA_X_509 {
        (2048, 2048, CKF_HW | CKF_ENCRYPT | CKF_DECRYPT | CKF_SIGN | CKF_VERIFY)
    } else if mech == CKM_RSA_PKCS_OAEP {
        (1024, 2048, CKF_HW | CKF_ENCRYPT | CKF_DECRYPT)
    } else if is_hash_rsa_pkcs(mech) {
        (2048, 2048, CKF_HW | CKF_SIGN | CKF_VERIFY)
    } else if mech == CKM_MD5 || mech == CKM_SHA_1 || mech == CKM_SHA256 || mech == CKM_SHA384 || mech == CKM_SHA512 {
        (0, 0, CKF_DIGEST)
    } else {
        return (CKR_MECHANISM_INVALID, None);
    };
    (CKR_OK, Some(CK_MECHANISM_INFO { ulMinKeySize: lo, ulMaxKeySize: hi, flags }))
}

/// The checks of `C_OpenSession` before the card is needed.
pub fn open_session_target(st: &State, flags: CK_FLAGS, has_out: bool) -> (rv: CK_RV)
    ensures
        rv == if !st.initialized {
            CKR_CRYPTOKI_NOT_INITIALIZED
        } else if !has_out {
            CKR_ARGUMENTS_BAD
        } else if flags & CKF_SERIAL_SESSION == 0 {
            CKR_SESSION_PARALLEL_NOT_SUPPORTED
        } else {
            CKR_OK
        },
{
    if !st.initialized {
        return CKR_CRYPTOKI_NOT_INITIALIZED;
    }
    if !has_out {
        return CKR_ARGUMENTS_BAD;
    }
    if flags & CKF_SERIAL_SESSION == 0 {
        return CKR_SESSION_PARALLEL_NOT_SUPPORTED;
    }
    CKR_OK
}

/// Index of the first session not in use at or after `i`.
pub open spec fn first_free(sessions: Seq<Session>, i: int) -> Option<int>
    decreases sessions.len() - i,
{
    if i < 0 || i >= sessions.len() {
        None
    } else if !sessions[i].in_use {
        Some(i)
    } else {
        first_free(sessions, i + 1)
    }
}

/// A session no operation is active in, with empty buffers.
pub open spec fn is_idle(s: Session) -> bool {
    &&& !s.find_active && s.find_handles@.len() == 0 && s.find_pos == 0
    &&& !s.sign_active && s.sign_key == 0 && s.sign_mech == 0 && s.sign_buf@.len() == 0
    &&& !s.decrypt_active && s.decrypt_key == 0 && s.decrypt_mech == 0 && s.decrypt_buf@.len() == 0
    &&& s.decrypt_plain is None && s.decrypt_oaep_hash == CKM_SHA256 && s.decrypt_oaep_label@.len() == 0
    &&& !s.verify_active && s.verify_key == 0 && s.verify_mech == 0 && s.verify_buf@.len() == 0
    &&& !s.digest_active && s.digest_ctx is None
    &&& !s.encrypt_active && s.encrypt_key == 0 && s.encrypt_mech == 0 && s.encrypt_buf@.len() == 0
    &&& s.encrypt_cipher is None && s.encrypt_oaep_hash == CKM_SHA256 && s.encrypt_oaep_label@.len() == 0
}

/// `C_OpenSession` once the slot's card is read: the first free session
/// opens on the slot with the slot's login state; its handle is its place
/// counted from 1.
pub fn c_open_session(st: &mut State, slot_id: CK_SLOT_ID, flags: CK_FLAGS) -> (r: (CK_RV, CK_SESSION_HANDLE))
    requires
        old(st).wf(),
    ensures
        final(st).wf(),
        final(st).slots == old(st).slots,
        final(st).card == old(st).card,
        final(st).initialized == old(st).initialized,
        slot_id >= old(st).slots@.len() ==> r.0 == CKR_SLOT_ID_INVALID && *final(st) == *old(st),
        slot_id < old(st).slots@.len() ==> match first_free(old(st).sessions@, 0) {
            None => r.0 == CKR_SESSION_COUNT && *final(st) == *old(st),
            Some(i) => {
                let li = old(st).slots@[slot_id as int].logged_in;
                &&& r.0 == CKR_OK && r.1 == i + 1
                &&& final(st).sessions@.len() == old(st).sessions@.len()
                &&& forall|j: int| 0 <= j < old(st).sessions@.len() && j != i ==> #[trigger] final(st).sessions@[j] == old(st).sessions@[j]
                &&& final(st).sessions@[i].in_use && final(st).sessions@[i].slot == slot_id && final(st).sessions@[i].flags == flags
                &&& final(st).sessions@[i].logged_in == li && final(st).sessions@[i].state == session_state_of(flags, li)
                &&& is_idle(final(st).sessions@[i])
            },
        },
{
    let n = st.slots.len();
    if slot_id >= n as u64 {
        return (CKR_SLOT_ID_INVALID, 0);
    }
    let logged_in = st.slots[slot_id as usize].logged_in;
    let mut i: usize = 0;
    while i < st.sessions.len()
        invariant
            i <= st.sessions@.len(),
            *st == *old(st),
            st.wf(),
            slot_id < st.slots@.len(),
            logged_in == st.slots@[slot_id as int].logged_in,
            first_free(st.sessions@, 0) == first_free(st.sessions@, i as int),
        decreases st.sessions@.len() - i,
    {
        if !st.sessions[i].in_use {
            let state = session_state(flags, logged_in);
            let mut s = Session::default();
            s.in_use = true;
            s.slot = slot_id;
            s.flags = flags;
            s.state = state;
            s.logged_in = logged_in;
            st.sessions.set(i, s);
            return (CKR_OK, (i + 1) as CK_SESSION_HANDLE);
        }
        i += 1;
    }
    (CKR_SESSION_COUNT, 0)
}

/// Whether a session of `sessions` is open on slot `slot_id`.
pub open spec fn has_session_on(sessions: Seq<Session>, slot_id: CK_SLOT_ID) -> bool {
    exists|j: int| 0 <= j < sessions.len() && #[trigger] sessions[j].in_use && sessions[j].slot == slot_id
}

fn any_session_on(sessions: &Vec<Session>, slot_id: CK_SLOT_ID) -> (b: bool)
    ensures
        b == has_session_on(sessions@, slot_id),
{
    let mut j: usize = 0;
    while j < sessions.len()
        invariant
            j <= sessions@.len(),
            forall|k: int| 0 <= k < j ==> !(#[trigger] sessions@[k].in_use && sessions@[k].slot == slot_id),
        decreases sessions@.len() - j,
    {
        if sessions[j].in_use && sessions[j].slot == slot_id {
            return true;
        }
        j += 1;
    }
    false
}

/// The card conversation after the last session of a slot closed or its
/// user logged out: the gen2 authentication is forgotten.
pub open spec fn auth_cleared(before: Connection, after: Connection) -> bool {
    &&& after.wf()
    &&& after.card == before.card
    &&& before.card.profile == CardProfile::Gen2 ==> same_auth(after.auth@, cleared_auth())
    &&& before.card.profile == CardProfile::Gen1 ==> same_auth(after.auth@, before.auth@)
}

/// `C_CloseSession`: the session closes; when it was the last one on its
/// slot the slot is logged out and the card authentication forgotten.
pub fn c_close_session(st: &mut State, h: CK_SESSION_HANDLE) -> (rv: CK_RV)
    requires
        old(st).wf(),
    ensures
        final(st).wf(),
        !old(st).initialized ==> rv == CKR_CRYPTOKI_NOT_INITIALIZED && *final(st) == *old(st),
        old(st).initialized && session_index(*old(st), h) is None ==> rv == CKR_SESSION_HANDLE_INVALID && *final(st) == *old(st),
        old(st).initialized ==> (session_index(*old(st), h) matches Some(i) ==> {
            let slot_id = old(st).sessions@[i].slot;
            &&& rv == CKR_OK
            &&& final(st).initialized
            &&& final(st).sessions@ == old(st).sessions@.update(i, Session { in_use: false, ..old(st).sessions@[i] })
            &&& if has_session_on(final(st).sessions@, slot_id) {
                final(st).slots == old(st).slots && final(st).card == old(st).card
            } else {
                &&& final(st).slots@ == old(st).slots@.update(slot_id as int, Slot { logged_in: false, ..old(st).slots@[slot_id as int] })
                &&& auth_cleared(old(st).card, final(st).card)
            }
        }),
{
    if !st.initialized {
        return CKR_CRYPTOKI_NOT_INITIALIZED;
    }
    let i = match session_of(st, h) {
        Some(i) => i,
        None => return CKR_SESSION_HANDLE_INVALID,
    };
    let slot_id = st.sessions[i].slot;
    st.sessions[i].in_use = false;
    if !any_session_on(&st.sessions, slot_id) {
        let n = st.slots.len();
        assert(slot_id < n);
        st.slots[slot_id as usize].logged_in = false;
        clear_auth_state(&mut st.card);
    }
    proof {
        assert forall|j: int| 0 <= j < st.sessions@.len() && #[trigger] st.sessions@[j].in_use implies
            st.sessions@[j].logged_in == st.slots@[st.sessions@[j].slot as int].logged_in by {
            assert(old(st).sessions@[j].in_use);
        }
    }
    CKR_OK
}

/// `C_CloseAllSessions`: every session of the slot closes, the slot is
/// logged out and the card authentication forgotten.
pub fn c_close_all_sessions(st: &mut State, slot_id: CK_SLOT_ID) -> (rv: CK_RV)
    requires
        old(st).wf(),
    ensures
        final(st).wf(),
        !old(st).initialized ==> rv == CKR_CRYPTOKI_NOT_INITIALIZED && *final(st) == *old(st),
        old(st).initialized && slot_id >= old(st).slots@.len() ==> rv == CKR_SLOT_ID_INVALID && *final(st) == *old(st),
        old(st).initialized && slot_id < old(st).slots@.len() ==> {
            &&& rv == CKR_OK
            &&& final(st).initialized
            &&& final(st).sessions@.len() == old(st).sessions@.len()
            &&& forall|j: int| 0 <= j < old(st).sessions@.len() ==> #[trigger] final(st).sessions@[j] == if old(st).sessions@[j].in_use
                && old(st).sessions@[j].slot == slot_id {
                Session { in_use: false, ..old(st).sessions@[j] }
            } else {
                old(st).sessions@[j]
            }
            &&& final(st).slots@ == old(st).slots@.update(slot_id as int, Slot { logged_in: false, ..old(st).slots@[slot_id as int] })
            &&& auth_cleared(old(st).card, final(st).card)
        },
{
    if !st.initialized {
        return CKR_CRYPTOKI_NOT_INITIALIZED;
    }
    let n = st.slots.len();
    if slot_id >= n as u64 {
        return CKR_SLOT_ID_INVALID;
    }
    let mut j: usize = 0;
    while j < st.sessions.len()
        invariant
            j <= st.sessions@.len(),
            st.sessions@.len() == old(st).sessions@.len(),
            st.slots == old(st).slots,
            st.card == old(st).card,
            st.initialized == old(st).initialized,
            forall|k: int| 0 <= k < j ==> #[trigger] st.sessions@[k] == if old(st).sessions@[k].in_use
                && old(st).sessions@[k].slot == slot_id {
                Session { in_use: false, ..old(st).sessions@[k] }
            } else {
                old(st).sessions@[k]
            },
            forall|k: int| j <= k < st.sessions@.len() ==> #[trigger] st.sessions@[k] == old(st).sessions@[k],
        decreases st.sessions@.len() - j,
    {
        if st.sessions[j].in_use && st.sessions[j].slot == slot_id {
            st.sessions[j].in_use = false;
        }
        j += 1;
    }
    st.slots[slot_id as usize].logged_in = false;
    clear_auth_state(&mut st.card);
    proof {
        assert forall|k: int| 0 <= k < st.sessions@.len() && #[trigger] st.sessions@[k].in_use implies
            st.sessions@[k].logged_in == st.slots@[st.sessions@[k].slot as int].logged_in by {
            assert(old(st).sessions@[k].in_use);
        }
    }
    CKR_OK
}

/// `C_GetSessionInfo`.
pub fn c_get_session_info(st: &State, h: CK_SESSION_HANDLE, has_out: bool) -> (r: (CK_RV, Option<CK_SESSION_INFO>))
    ensures
        session_index(*st, h) is None ==> r.0 == CKR_SESSION_HANDLE_INVALID && r.1 is None,
        session_index(*st, h) is Some && !has_out ==> r.0 == CKR_ARGUMENTS_BAD && r.1 is None,
        has_out ==> (session_index(*st, h) matches Some(i) ==> r.0 == CKR_OK && (r.1 matches Some(info)
            && info.slotID == st.sessions@[i].slot && info.state == st.sessions@[i].state
            && info.flags == st.sessions@[i].flags && info.ulDeviceError == 0)),
{
    let i = match session_of(st, h) {
        Some(i) => i,
        None => return (CKR_SESSION_HANDLE_INVALID, None),
    };
    if !has_out {
        return (CKR_ARGUMENTS_BAD, None);
    }
    let s = &st.sessions[i];
    (CKR_OK, Some(CK_SESSION_INFO { slotID: s.slot, state: s.state, flags: s.flags, ulDeviceError: 0 }))
}

/// `C_Logout`: the slot and all its sessions are logged out and the card
/// authentication forgotten.
pub fn c_logout(st: &mut State, h: CK_SESSION_HANDLE) -> (rv: CK_RV)
    requires
        old(st).wf(),
    ensures
        final(st).wf(),
        session_index(*old(st), h) is None ==> rv == CKR_SESSION_HANDLE_INVALID && *final(st) == *old(st),
        session_index(*old(st), h) matches Some(i) ==> {
            let slot_id = old(st).sessions@[i].slot;
            if !old(st).slots@[slot_id as int].logged_in {
                rv == CKR_USER_NOT_LOGGED_IN && *final(st) == *old(st)
            } else {
                &&& rv == CKR_OK
                &&& final(st).initialized == old(st).initialized
                &&& final(st).slots@ == old(st).slots@.update(slot_id as int, Slot { logged_in: false, ..old(st).slots@[slot_id as int] })
                &&& final(st).sessions@.len() == old(st).sessions@.len()
                &&& forall|j: int| 0 <= j < old(st).sessions@.len() ==>
                    #[trigger] final(st).sessions@[j] == with_login(old(st).sessions@[j], slot_id, false)
                &&& auth_cleared(old(st).card, final(st).card)
            }
        },
{
    let i = match session_of(st, h) {
        Some(i) => i,
        None => return CKR_SESSION_HANDLE_INVALID,
    };
    let slot_id = st.sessions[i].slot;
    let n = st.slots.len();
    assert(slot_id < n);
    if !st.slots[slot_id as usize].logged_in {
        return CKR_USER_NOT_LOGGED_IN;
    }
    st.slots[slot_id as usize].logged_in = false;
    set_slot_sessions_login_state(st.sessions.as_mut_slice(), slot_id, false);
    clear_auth_state(&mut st.card);
    proof {
        assert forall|k: int| 0 <= k < st.sessions@.len() && #[trigger] st.sessions@[k].in_use implies {
            &&& st.sessions@[k].slot < st.slots@.len()
            &&& st.sessions@[k].logged_in == st.slots@[st.sessions@[k].slot as int].logged_in
            &&& st.sessions@[k].state == session_state_of(st.sessions@[k].flags, st.sessions@[k].logged_in)
        } by {
            assert(old(st).sessions@[k].in_use);
        }
    }
    CKR_OK
}

/// `C_GetAttributeValue`: the template (`None` where the caller gave none)
/// filled in from the object with handle `h_object` on the session's token.
pub fn c_get_attribute_value(st: &State, h: CK_SESSION_HANDLE, h_object: CK_OBJECT_HANDLE, tmpl: Option<&[CK_ATTRIBUTE]>)
    -> (r: (CK_RV, Vec<CK_ATTRIBUTE>))
    requires
        st.wf(),
        tmpl matches Some(t) ==> forall|i: int| 0 <= i < t@.len() ==> attr_wf(#[trigger] t@[i]@),
    ensures
        session_index(*st, h) is None ==> r.0 == CKR_SESSION_HANDLE_INVALID && r.1@.len() == 0,
        session_index(*st, h) is Some && tmpl is None ==> r.0 == CKR_ARGUMENTS_BAD && r.1@.len() == 0,
        session_index(*st, h) matches Some(i) ==> (tmpl matches Some(t) ==> {
            let objs = st.slots@[st.sessions@[i].slot as int].token.objs@;
            match find_from(objs, h_object, 0) {
                None => r.0 == CKR_OBJECT_HANDLE_INVALID && r.1@.len() == 0,
                Some(k) => {
                    &&& r.0 == query_rv(objs[k]@, template_view(t@))
                    &&& r.1@.len() == t@.len()
                    &&& forall|j: int| 0 <= j < t@.len() ==>
                        #[trigger] r.1@[j]@ == filled_attr(t@[j]@, attr_value(objs[k]@, t@[j].type_)).0
                },
            }
        }),
{
    let i = match session_of(st, h) {
        Some(i) => i,
        None => return (CKR_SESSION_HANDLE_INVALID, Vec::new()),
    };
    let t = match tmpl {
        Some(t) => t,
        None => return (CKR_ARGUMENTS_BAD, Vec::new()),
    };
    let slot_id = st.sessions[i].slot;
    let n = st.slots.len();
    assert(slot_id < n);
    let tok = &st.slots[slot_id as usize].token;
    assert(*tok == st.slots@[st.sessions@[i as int].slot as int].token);
    let obj = match find(tok, h_object) {
        Some(o) => o,
        None => return (CKR_OBJECT_HANDLE_INVALID, Vec::new()),
    };
    get_attribute_values(obj, t)
}

/// Whether a session logged in as `logged_in` may see `o`: private objects
/// and private keys only after login.
pub open spec fn visible(o: ObjModel, logged_in: bool) -> bool {
    !((o.private || o.cls == ObjClass::PrivKey) && !logged_in)
}

/// Handles of the objects a search finds, in token order.
pub open spec fn matching_handles(objs: Seq<TokenObject>, t: Seq<AttrView>, logged_in: bool) -> Seq<CK_OBJECT_HANDLE>
    decreases objs.len(),
{
    if objs.len() == 0 {
        Seq::empty()
    } else {
        let rest = matching_handles(objs.drop_last(), t, logged_in);
        if visible(objs.last()@, logged_in) && template_admits(objs.last()@, t) {
            rest.push(objs.last().handle)
        } else {
            rest
        }
    }
}

/// The first `MAX_OBJS` handles a search finds.
pub open spec fn search_result(objs: Seq<TokenObject>, t: Seq<AttrView>, logged_in: bool) -> Seq<CK_OBJECT_HANDLE> {
    let all = matching_handles(objs, t, logged_in);
    if all.len() > MAX_OBJS { all.take(MAX_OBJS as int) } else { all }
}

proof fn lemma_matching_grows(objs: Seq<TokenObject>, t: Seq<AttrView>, li: bool, k: int)
    requires
        0 <= k <= objs.len(),
    ensures
        matching_handles(objs.take(k), t, li).len() <= matching_handles(objs, t, li).len(),
        matching_handles(objs, t, li).take(matching_handles(objs.take(k), t, li).len() as int)
            == matching_handles(objs.take(k), t, li),
    decreases objs.len() - k,
{
    if k < objs.len() {
        lemma_matching_grows(objs, t, li, k + 1);
        assert(objs.take(k + 1).drop_last() =~= objs.take(k));
        let a = matching_handles(objs.take(k), t, li);
        let b = matching_handles(objs.take(k + 1), t, li);
        let full = matching_handles(objs, t, li);
        assert(b.take(a.len() as int) =~= a);
        assert(full.take(a.len() as int) =~= full.take(b.len() as int).take(a.len() as int));
    } else {
        assert(objs.take(k) =~= objs);
        assert(matching_handles(objs, t, li).take(matching_handles(objs, t, li).len() as int) =~= matching_handles(objs, t, li));
    }
}

/// `C_FindObjectsInit` with the search template (empty where the caller
/// gave none): the session's search starts over the objects its login
/// state lets it see, at most `MAX_OBJS` of them.
pub fn c_find_objects_init(st: &mut State, h: CK_SESSION_HANDLE, tmpl: &[CK_ATTRIBUTE]) -> (rv: CK_RV)
    requires
        old(st).wf(),
        forall|i: int| 0 <= i < tmpl@.len() ==> attr_wf(#[trigger] tmpl@[i]@),
    ensures
        final(st).wf(),
        session_index(*old(st), h) is None ==> rv == CKR_SESSION_HANDLE_INVALID && *final(st) == *old(st),
        session_index(*old(st), h) matches Some(i) ==> {
            let s = old(st).sessions@[i];
            let found = search_result(old(st).slots@[s.slot as int].token.objs@, template_view(tmpl@), s.logged_in);
            &&& rv == CKR_OK
            &&& final(st).slots == old(st).slots && final(st).card == old(st).card
            &&& final(st).initialized == old(st).initialized
            &&& final(st).sessions@ == old(st).sessions@.update(i, Session {
                find_active: true,
                find_pos: 0,
                find_handles: final(st).sessions@[i].find_handles,
                ..s
            })
            &&& final(st).sessions@[i].find_handles@ == found
        },
{
    let i = match session_of(st, h) {
        Some(i) => i,
        None => return CKR_SESSION_HANDLE_INVALID,
    };
    let slot_id = st.sessions[i].slot;
    let logged_in = st.sessions[i].logged_in;
    let n = st.slots.len();
    assert(slot_id < n);
    let mut found: Vec<CK_OBJECT_HANDLE> = Vec::new();
    {
        let objs = &st.slots[slot_id as usize].token.objs;
        let mut k: usize = 0;
        while k < objs.len() && found.len() < MAX_OBJS
            invariant
                k <= objs@.len(),
                found@.len() <= MAX_OBJS,
                forall|j: int| 0 <= j < tmpl@.len() ==> attr_wf(#[trigger] tmpl@[j]@),
                found@ == matching_handles(objs@.take(k as int), template_view(tmpl@), logged_in),
            decreases objs@.len() - k,
        {
            let o = &objs[k];
            assert(objs@.take(k + 1).drop_last() =~= objs@.take(k as int));
            let hidden = (o.private || o.cls == ObjClass::PrivKey) && !logged_in;
            if !hidden && attr_match(o, tmpl) {
                found.push(o.handle);
            }
            k += 1;
        }
        proof {
            let all = matching_handles(objs@, template_view(tmpl@), logged_in);
            lemma_matching_grows(objs@, template_view(tmpl@), logged_in, k as int);
            if k == objs@.len() {
                assert(objs@.take(k as int) =~= objs@);
            } else {
                assert(found@.len() == MAX_OBJS);
            }
        }
    }
    st.sessions[i].find_active = true;
    st.sessions[i].find_pos = 0;
    st.sessions[i].find_handles = found;
    CKR_OK
}

/// `C_FindObjects`: up to `max` more handles of the session's search.
pub fn c_find_objects(st: &mut State, h: CK_SESSION_HANDLE, max: CK_ULONG, has_count: bool) -> (r: (CK_RV, Vec<CK_OBJECT_HANDLE>))
    requires
        old(st).wf(),
    ensures
        final(st).wf(),
        session_index(*old(st), h) is None ==> r.0 == CKR_SESSION_HANDLE_INVALID && r.1@.len() == 0 && *final(st) == *old(st),
        session_index(*old(st), h) matches Some(i) ==> {
            let s = old(st).sessions@[i];
            if !s.find_active || !has_count {
                r.0 == CKR_ARGUMENTS_BAD && r.1@.len() == 0 && *final(st) == *old(st)
            } else {
                let end = if s.find_pos >= s.find_handles@.len() {
                    s.find_pos as int
                } else if s.find_handles@.len() - s.find_pos <= max {
                    s.find_handles@.len() as int
                } else {
                    s.find_pos + max
                };
                &&& r.0 == CKR_OK
                &&& s.find_pos >= s.find_handles@.len() ==> r.1@.len() == 0
                &&& s.find_pos < s.find_handles@.len() ==> r.1@ == s.find_handles@.subrange(s.find_pos as int, end)
                &&& final(st).sessions@ == old(st).sessions@.update(i, Session { find_pos: end as usize, ..s })
                &&& final(st).slots == old(st).slots && final(st).card == old(st).card
                &&& final(st).initialized == old(st).initialized
            }
        },
{
    let i = match session_of(st, h) {
        Some(i) => i,
        None => return (CKR_SESSION_HANDLE_INVALID, Vec::new()),
    };
    if !st.sessions[i].find_active || !has_count {
        return (CKR_ARGUMENTS_BAD, Vec::new());
    }
    let ghost s = st.sessions@[i as int];
    let mut out: Vec<CK_OBJECT_HANDLE> = Vec::new();
    let mut pos = st.sessions[i].find_pos;
    let mut n: u64 = 0;
    while pos < st.sessions[i].find_handles.len() && n < max
        invariant
            st.sessions@[i as int] == s,
            *st == *old(st),
            0 <= i < st.sessions@.len(),
            pos == s.find_pos + n,
            n <= max,
            s.find_pos >= s.find_handles@.len() ==> n == 0 && out@.len() == 0,
            s.find_pos < s.find_handles@.len() ==> pos <= s.find_handles@.len()
                && out@ == s.find_handles@.subrange(s.find_pos as int, pos as int),
        decreases s.find_handles@.len() - pos,
    {
        out.push(st.sessions[i].find_handles[pos]);
        assert(out@ =~= s.find_handles@.subrange(s.find_pos as int, pos + 1));
        assert(s.find_pos < s.find_handles@.len());
        pos += 1;
        n += 1;
    }
    st.sessions[i].find_pos = pos;
    proof {
        assert forall|k: int| 0 <= k < st.sessions@.len() && #[trigger] st.sessions@[k].in_use implies
            st.sessions@[k].logged_in == st.slots@[st.sessions@[k].slot as int].logged_in by {
            assert(old(st).sessions@[k].in_use);
        }
    }
    (CKR_OK, out)
}

/// `C_FindObjectsFinal`: the session's search ends.
pub fn c_find_objects_final(st: &mut State, h: CK_SESSION_HANDLE) -> (rv: CK_RV)
    requires
        old(st).wf(),
    ensures
        final(st).wf(),
        session_index(*old(st), h) is None ==> rv == CKR_SESSION_HANDLE_INVALID && *final(st) == *old(st),
        session_index(*old(st), h) matches Some(i) ==> rv == CKR_OK
            && final(st).sessions@ == old(st).sessions@.update(i, Session { find_active: false, ..old(st).sessions@[i] })
            && final(st).slots == old(st).slots && final(st).card == old(st).card
            && final(st).initialized == old(st).initialized,
{
    let i = match session_of(st, h) {
        Some(i) => i,
        None => return CKR_SESSION_HANDLE_INVALID,
    };
    st.sessions[i].find_active = false;
    proof {
        assert forall|k: int| 0 <= k < st.sessions@.len() && #[trigger] st.sessions@[k].in_use implies
            st.sessions@[k].logged_in == st.slots@[st.sessions@[k].slot as int].logged_in by {
            assert(old(st).sessions@[k].in_use);
        }
    }
    CKR_OK
}

/// Status answered for the outcome of a PIN check.
pub open spec fn pin_rv(p: PinResult) -> CK_RV {
    match p {
        PinResult::Verified => CKR_OK,
        PinResult::Locked => CKR_PIN_LOCKED,
        PinResult::Incorrect => CKR_PIN_INCORRECT,
        PinResult::Error => CKR_DEVICE_ERROR,
    }
}

/// A byte string passed by the caller, by its view.
pub open spec fn opt_view(b: Option<&[u8]>) -> Option<Seq<u8>> {
    match b {
        Some(v) => Some(v@),
        None => None,
    }
}

/// Random bytes, by their view.
pub open spec fn random_view(r: Option<Vec<u8>>) -> Option<Seq<u8>> {
    match r {
        Some(v) => Some(v@),
        None => None,
    }
}

/// Why `C_Login` is refused before the card is asked, if it is: the session
/// must be open, the user the normal user, the slot not yet logged in, and
/// a PIN given.
pub open spec fn login_refusal(st: State, h: CK_SESSION_HANDLE, user_type: CK_USER_TYPE, pin: Option<Seq<u8>>) -> Option<CK_RV> {
    match session_index(st, h) {
        None => Some(CKR_SESSION_HANDLE_INVALID),
        Some(i) => if user_type != CKU_USER {
            Some(CKR_USER_TYPE_INVALID)
        } else if st.slots@[st.sessions@[i].slot as int].logged_in {
            Some(CKR_USER_ALREADY_LOGGED_IN)
        } else if pin is None || pin->0.len() == 0 {
            Some(CKR_ARGUMENTS_BAD)
        } else {
            None
        },
    }
}

/// The module after a PIN check on slot `slot_id` answered `p`: the card
/// conversation is the one the check left; an accepted PIN logs the slot
/// and all its sessions in.
pub open spec fn after_login(before: State, after: State, slot_id: CK_SLOT_ID, p: PinResult, card: ConnectionModel) -> bool {
    &&& same_conn(after.card@, card)
    &&& after.initialized == before.initialized
    &&& p == PinResult::Verified ==> {
        &&& after.slots@ == before.slots@.update(slot_id as int, Slot { logged_in: true, ..before.slots@[slot_id as int] })
        &&& after.sessions@.len() == before.sessions@.len()
        &&& forall|j: int| 0 <= j < before.sessions@.len() ==>
            #[trigger] after.sessions@[j] == with_login(before.sessions@[j], slot_id, true)
    }
    &&& p != PinResult::Verified ==> after.slots == before.slots && after.sessions == before.sessions
}

/// `C_Login` as a card dialogue (see [`Flow`]): after the checks of
/// [`login_refusal`], the PIN is verified with the card; the answer maps to
/// the status (accepted, locked, incorrect, or a device error). Nothing
/// changes before the dialogue is done.
pub fn c_login(
    st: &mut State,
    h: CK_SESSION_HANDLE,
    user_type: CK_USER_TYPE,
    pin: Option<&[u8]>,
    random: &Option<Vec<u8>>,
    log: &[Option<Response>],
    at: usize,
) -> (r: Flow<CK_RV>)
    requires
        old(st).wf(),
        random matches Some(v) ==> v@.len() == 8,
        at <= log@.len(),
    ensures
        final(st).wf(),
        match login_refusal(*old(st), h, user_type, opt_view(pin)) {
            Some(rv) => r == Flow::<CK_RV>::Done(rv, at) && *final(st) == *old(st),
            None => {
                let slot_id = old(st).sessions@[session_index(*old(st), h)->0].slot;
                match spec_verify_pin(old(st).card@, opt_view(pin)->0, random_view(*random), log@, at as int) {
                    SFlow::Transmit(c) => (r matches Flow::Transmit(x) && x@ == c) && *final(st) == *old(st),
                    SFlow::Done((p, cm), n) => (r matches Flow::Done(rv, m) && m == n && rv == pin_rv(p))
                        && after_login(*old(st), *final(st), slot_id, p, cm),
                }
            },
        },
{
    let i = match session_of(st, h) {
        Some(i) => i,
        None => return Flow::Done(CKR_SESSION_HANDLE_INVALID, at),
    };
    if user_type != CKU_USER {
        return Flow::Done(CKR_USER_TYPE_INVALID, at);
    }
    let slot_id = st.sessions[i].slot;
    let n = st.slots.len();
    assert(slot_id < n);
    if st.slots[slot_id as usize].logged_in {
        return Flow::Done(CKR_USER_ALREADY_LOGGED_IN, at);
    }
    let pin_bytes = match pin {
        Some(p) => p,
        None => return Flow::Done(CKR_ARGUMENTS_BAD, at),
    };
    if pin_bytes.len() == 0 {
        return Flow::Done(CKR_ARGUMENTS_BAD, at);
    }
    let pin_ref = st.slots[slot_id as usize].token.pin_ref;
    let (p, card, m) = match verify_pin(&st.card, pin_ref, pin_bytes, random, log, at) {
        Flow::Transmit(c) => return Flow::Transmit(c),
        Flow::Done((p, card), m) => (p, card, m),
    };
    st.card = card;
    let rv = match p {
        PinResult::Verified => {
            st.slots[slot_id as usize].logged_in = true;
            set_slot_sessions_login_state(st.sessions.as_mut_slice(), slot_id, true);
            CKR_OK
        },
        PinResult::Locked => CKR_PIN_LOCKED,
        PinResult::Incorrect => CKR_PIN_INCORRECT,
        PinResult::Error => CKR_DEVICE_ERROR,
    };
    proof {
        assert forall|k: int| 0 <= k < st.sessions@.len() && #[trigger] st.sessions@[k].in_use implies {
            &&& st.sessions@[k].slot < st.slots@.len()
            &&& st.sessions@[k].logged_in == st.slots@[st.sessions@[k].slot as int].logged_in
            &&& st.sessions@[k].state == session_state_of(st.sessions@[k].flags, st.sessions@[k].logged_in)
        } by {
            assert(old(st).sessions@[k].in_use);
        }
    }
    Flow::Done(rv, m)
}

/// The digest algorithm of a digest mechanism.
pub open spec fn digest_alg_of(mech: CK_MECHANISM_TYPE) -> Option<DigestAlg> {
    if mech == CKM_MD5 {
        Some(DigestAlg::Md5)
    } else if mech == CKM_SHA_1 {
        Some(DigestAlg::Sha1)
    } else if mech == CKM_SHA256 {
        Some(DigestAlg::Sha256)
    } else if mech == CKM_SHA384 {
        Some(DigestAlg::Sha384)
    } else if mech == CKM_SHA512 {
        Some(DigestAlg::Sha512)
    } else {
        None
    }
}

/// Length of a digest.
pub open spec fn digest_out_len(alg: DigestAlg) -> nat {
    match alg {
        DigestAlg::Md5 => 16,
        DigestAlg::Sha1 => 20,
        DigestAlg::Sha256 => 32,
        DigestAlg::Sha384 => 48,
        DigestAlg::Sha512 => 64,
    }
}

/// The digest of `data`.
pub open spec fn digest_value(alg: DigestAlg, data: Seq<u8>) -> Seq<u8> {
    match alg {
        DigestAlg::Md5 => md5_value(data),
        DigestAlg::Sha1 => sha1_value(data),
        DigestAlg::Sha256 => sha256_value(data),
        DigestAlg::Sha384 => sha384_value(data),
        DigestAlg::Sha512 => sha512_value(data),
    }
}

fn digest_output_len(alg: DigestAlg) -> (n: usize)
    ensures
        n == digest_out_len(alg),
{
    match alg {
        DigestAlg::Md5 => 16,
        DigestAlg::Sha1 => 20,
        DigestAlg::Sha256 => 32,
        DigestAlg::Sha384 => 48,
        DigestAlg::Sha512 => 64,
    }
}

fn digest_bytes(alg: DigestAlg, data: &[u8]) -> (out: Vec<u8>)
    ensures
        out@ == digest_value(alg, data@),
        out@.len() == digest_out_len(alg),
{
    match alg {
        DigestAlg::Md5 => bytes_to_vec(&crypto::md5(data)),
        DigestAlg::Sha1 => bytes_to_vec(&crypto::sha1(data)),
        DigestAlg::Sha256 => bytes_to_vec(&crypto::sha256(data)),
        DigestAlg::Sha384 => bytes_to_vec(&crypto::sha384(data)),
        DigestAlg::Sha512 => bytes_to_vec(&crypto::sha512(data)),
    }
}

/// The module after a change to session `i` alone.
pub open spec fn only_session_changed(before: State, after: State, i: int) -> bool {
    &&& after.slots == before.slots
    &&& after.card == before.card
    &&& after.initialized == before.initialized
    &&& after.sessions@.len() == before.sessions@.len()
    &&& after.sessions@[i].in_use == before.sessions@[i].in_use
    &&& after.sessions@[i].slot == before.sessions@[i].slot
    &&& after.sessions@[i].flags == before.sessions@[i].flags
    &&& after.sessions@[i].state == before.sessions@[i].state
    &&& after.sessions@[i].logged_in == before.sessions@[i].logged_in
    &&& forall|j: int| 0 <= j < before.sessions@.len() && j != i ==> #[trigger] after.sessions@[j] == before.sessions@[j]
}

proof fn lemma_only_session_changed_wf(before: State, after: State, i: int)
    requires
        before.wf(),
        0 <= i < before.sessions@.len(),
        only_session_changed(State { card: after.card, ..before }, after, i),
        after.card.wf(),
    ensures
        after.wf(),
{
    assert forall|k: int| 0 <= k < after.sessions@.len() && #[trigger] after.sessions@[k].in_use implies {
        &&& after.sessions@[k].slot < after.slots@.len()
        &&& after.sessions@[k].logged_in == after.slots@[after.sessions@[k].slot as int].logged_in
        &&& after.sessions@[k].state == session_state_of(after.sessions@[k].flags, after.sessions@[k].logged_in)
    } by {
        assert(before.sessions@[k].in_use);
    }
}

/// `C_DigestInit` with the mechanism type (`None` where the caller gave no
/// mechanism).
pub fn c_digest_init(st: &mut State, h: CK_SESSION_HANDLE, mech: Option<CK_MECHANISM_TYPE>) -> (rv: CK_RV)
    requires
        old(st).wf(),
    ensures
        final(st).wf(),
        session_index(*old(st), h) is None ==> rv == CKR_SESSION_HANDLE_INVALID && *final(st) == *old(st),
        session_index(*old(st), h) matches Some(i) ==> match mech {
            None => rv == CKR_ARGUMENTS_BAD && *final(st) == *old(st),
            Some(m) => match digest_alg_of(m) {
                None => rv == CKR_MECHANISM_INVALID && *final(st) == *old(st),
                Some(alg) => {
                    &&& rv == CKR_OK
                    &&& only_session_changed(*old(st), *final(st), i)
                    &&& final(st).sessions@[i] == Session {
                        digest_active: true,
                        digest_ctx: final(st).sessions@[i].digest_ctx,
                        ..old(st).sessions@[i]
                    }
                    &&& final(st).sessions@[i].digest_ctx matches Some(c) && c.alg == alg && c.absorbed@.len() == 0
                },
            },
        },
{
    let i = match session_of(st, h) {
        Some(i) => i,
        None => return CKR_SESSION_HANDLE_INVALID,
    };
    let m = match mech {
        Some(m) => m,
        None => return CKR_ARGUMENTS_BAD,
    };
    let alg = if m == CKM_MD5 {
        DigestAlg::Md5
    } else if m == CKM_SHA_1 {
        DigestAlg::Sha1
    } else if m == CKM_SHA256 {
        DigestAlg::Sha256
    } else if m == CKM_SHA384 {
        DigestAlg::Sha384
    } else if m == CKM_SHA512 {
        DigestAlg::Sha512
    } else {
        return CKR_MECHANISM_INVALID;
    };
    st.sessions[i].digest_active = true;
    st.sessions[i].digest_ctx = Some(DigestCtx { alg, absorbed: Vec::new() });
    proof {
        lemma_only_session_changed_wf(*old(st), *st, i as int);
    }
    CKR_OK
}

/// The digest operation of a session, where one is active.
pub open spec fn active_digest(s: Session) -> Option<DigestCtx> {
    if s.digest_active { s.digest_ctx } else { None }
}

/// `C_Digest`: the digest of what was given before and `data` (`None` where
/// the caller gave a length but no bytes), written into room for
/// `out_cap` bytes (`None` where the caller only asks for the length). The
/// length reported comes back with the status; the operation ends once the
/// digest is written.
pub fn c_digest(st: &mut State, h: CK_SESSION_HANDLE, data: Option<&[u8]>, out_cap: Option<CK_ULONG>, has_len: bool)
    -> (r: (CK_RV, Option<CK_ULONG>, Vec<u8>))
    requires
        old(st).wf(),
    ensures
        final(st).wf(),
        session_index(*old(st), h) is None ==> r.0 == CKR_OPERATION_NOT_INITIALIZED && *final(st) == *old(st),
        session_index(*old(st), h) matches Some(i) ==> match active_digest(old(st).sessions@[i]) {
            None => r.0 == CKR_OPERATION_NOT_INITIALIZED && *final(st) == *old(st),
            Some(c) => if !has_len {
                r.0 == CKR_ARGUMENTS_BAD && *final(st) == *old(st)
            } else {
                let need = digest_out_len(c.alg);
                match out_cap {
                    None => r.0 == CKR_OK && r.1 == Some(need as CK_ULONG) && *final(st) == *old(st),
                    Some(cap) => if data is None {
                        r.0 == CKR_ARGUMENTS_BAD && *final(st) == *old(st)
                    } else if cap < need {
                        r.0 == CKR_BUFFER_TOO_SMALL && r.1 == Some(need as CK_ULONG) && *final(st) == *old(st)
                    } else {
                        &&& r.0 == CKR_OK && r.1 == Some(need as CK_ULONG)
                        &&& r.2@ == digest_value(c.alg, c.absorbed@ + data->0@)
                        &&& only_session_changed(*old(st), *final(st), i)
                        &&& final(st).sessions@[i] == Session { digest_active: false, digest_ctx: None, ..old(st).sessions@[i] }
                    },
                }
            },
        },
{
    let i = match session_of(st, h) {
        Some(i) => i,
        None => return (CKR_OPERATION_NOT_INITIALIZED, None, Vec::new()),
    };
    if !st.sessions[i].digest_active {
        return (CKR_OPERATION_NOT_INITIALIZED, None, Vec::new());
    }
    let (alg, need) = match &st.sessions[i].digest_ctx {
        None => return (CKR_OPERATION_NOT_INITIALIZED, None, Vec::new()),
        Some(c) => (c.alg, digest_output_len(c.alg)),
    };
    if !has_len {
        return (CKR_ARGUMENTS_BAD, None, Vec::new());
    }
    let cap = match out_cap {
        None => return (CKR_OK, Some(need as CK_ULONG), Vec::new()),
        Some(cap) => cap,
    };
    let data = match data {
        None => return (CKR_ARGUMENTS_BAD, None, Vec::new()),
        Some(d) => d,
    };
    if cap < need as CK_ULONG {
        return (CKR_BUFFER_TOO_SMALL, Some(need as CK_ULONG), Vec::new());
    }
    let ctx = st.sessions[i].digest_ctx.take();
    let mut all = match ctx {
        Some(c) => c.absorbed,
        None => Vec::new(),
    };
    all.extend_from_slice(data);
    let out = digest_bytes(alg, &all);
    st.sessions[i].digest_active = false;
    proof {
        lemma_only_session_changed_wf(*old(st), *st, i as int);
        let c = active_digest(old(st).sessions@[i as int])->0;
        assert(all@ == c.absorbed@ + data@);
        assert(out@ == digest_value(c.alg, c.absorbed@ + data@));
        assert(st.sessions@[i as int] == Session { digest_active: false, digest_ctx: None, ..old(st).sessions@[i as int] });
        assert(only_session_changed(*old(st), *st, i as int));
    }
    (CKR_OK, Some(out.len() as CK_ULONG), out)
}

/// `C_DigestUpdate`: `part` (`None` where the caller gave a length but no
/// bytes) is added to what the digest has been given.
pub fn c_digest_update(st: &mut State, h: CK_SESSION_HANDLE, part: Option<&[u8]>) -> (rv: CK_RV)
    requires
        old(st).wf(),
    ensures
        final(st).wf(),
        session_index(*old(st), h) is None ==> rv == CKR_OPERATION_NOT_INITIALIZED && *final(st) == *old(st),
        session_index(*old(st), h) matches Some(i) ==> match active_digest(old(st).sessions@[i]) {
            None => rv == CKR_OPERATION_NOT_INITIALIZED && *final(st) == *old(st),
            Some(c) => match part {
                None => rv == CKR_ARGUMENTS_BAD && *final(st) == *old(st),
                Some(p) => {
                    &&& rv == CKR_OK
                    &&& only_session_changed(*old(st), *final(st), i)
                    &&& final(st).sessions@[i] == Session { digest_ctx: final(st).sessions@[i].digest_ctx, ..old(st).sessions@[i] }
                    &&& final(st).sessions@[i].digest_ctx matches Some(c2) && c2.alg == c.alg && c2.absorbed@ == c.absorbed@ + p@
                },
            },
        },
{
    let i = match session_of(st, h) {
        Some(i) => i,
        None => return CKR_OPERATION_NOT_INITIALIZED,
    };
    if !st.sessions[i].digest_active || st.sessions[i].digest_ctx.is_none() {
        return CKR_OPERATION_NOT_INITIALIZED;
    }
    let part = match part {
        None => return CKR_ARGUMENTS_BAD,
        Some(p) => p,
    };
    let ctx = st.sessions[i].digest_ctx.take();
    let c = match ctx {
        Some(c) => c,
        None => return CKR_OPERATION_NOT_INITIALIZED,
    };
    let mut absorbed = c.absorbed;
    absorbed.extend_from_slice(part);
    st.sessions[i].digest_ctx = Some(DigestCtx { alg: c.alg, absorbed });
    proof {
        lemma_only_session_changed_wf(*old(st), *st, i as int);
    }
    CKR_OK
}

/// `C_DigestFinal`: the digest of what was given, written into room for
/// `out_cap` bytes (`None` where only the length is asked).
pub fn c_digest_final(st: &mut State, h: CK_SESSION_HANDLE, out_cap: Option<CK_ULONG>, has_len: bool)
    -> (r: (CK_RV, Option<CK_ULONG>, Vec<u8>))
    requires
        old(st).wf(),
    ensures
        final(st).wf(),
        session_index(*old(st), h) is None ==> r.0 == CKR_OPERATION_NOT_INITIALIZED && *final(st) == *old(st),
        session_index(*old(st), h) matches Some(i) ==> match active_digest(old(st).sessions@[i]) {
            None => r.0 == CKR_OPERATION_NOT_INITIALIZED && *final(st) == *old(st),
            Some(c) => if !has_len {
                r.0 == CKR_ARGUMENTS_BAD && *final(st) == *old(st)
            } else {
                let need = digest_out_len(c.alg);
                match out_cap {
                    None => r.0 == CKR_OK && r.1 == Some(need as CK_ULONG) && *final(st) == *old(st),
                    Some(cap) => if cap < need {
                        r.0 == CKR_BUFFER_TOO_SMALL && r.1 == Some(need as CK_ULONG) && *final(st) == *old(st)
                    } else {
                        &&& r.0 == CKR_OK && r.1 == Some(need as CK_ULONG)
                        &&& r.2@ == digest_value(c.alg, c.absorbed@)
                        &&& only_session_changed(*old(st), *final(st), i)
                        &&& final(st).sessions@[i] == Session { digest_active: false, digest_ctx: None, ..old(st).sessions@[i] }
                    },
                }
            },
        },
{
    let i = match session_of(st, h) {
        Some(i) => i,
        None => return (CKR_OPERATION_NOT_INITIALIZED, None, Vec::new()),
    };
    if !st.sessions[i].digest_active {
        return (CKR_OPERATION_NOT_INITIALIZED, None, Vec::new());
    }
    let (alg, need) = match &st.sessions[i].digest_ctx {
        None => return (CKR_OPERATION_NOT_INITIALIZED, None, Vec::new()),
        Some(c) => (c.alg, digest_output_len(c.alg)),
    };
    if !has_len {
        return (CKR_ARGUMENTS_BAD, None, Vec::new());
    }
    let cap = match out_cap {
        None => return (CKR_OK, Some(need as CK_ULONG), Vec::new()),
        Some(cap) => cap,
    };
    if cap < need as CK_ULONG {
        return (CKR_BUFFER_TOO_SMALL, Some(need as CK_ULONG), Vec::new());
    }
    let ctx = st.sessions[i].digest_ctx.take();
    let all = match ctx {
        Some(c) => c.absorbed,
        None => Vec::new(),
    };
    let out = digest_bytes(alg, &all);
    st.sessions[i].digest_active = false;
    proof {
        lemma_only_session_changed_wf(*old(st), *st, i as int);
    }
    (CKR_OK, Some(out.len() as CK_ULONG), out)
}

/// The signing mechanisms: raw and PKCS#1 v1.5 RSA, and hash-and-sign.
pub open spec fn is_sign_mech(mech: CK_MECHANISM_TYPE) -> bool {
    mech == CKM_RSA_PKCS || mech == CKM_RSA_X_509 || is_hash_rsa_mech(mech)
}

/// The object with handle `h` on the token of slot `slot_id`.
pub open spec fn key_object(st: State, slot_id: CK_SLOT_ID, h: CK_OBJECT_HANDLE) -> Option<TokenObject> {
    match find_from(st.slots@[slot_id as int].token.objs@, h, 0) {
        Some(k) => Some(st.slots@[slot_id as int].token.objs@[k]),
        None => None,
    }
}

/// Why `C_SignInit` is refused, if it is.
pub open spec fn sign_init_refusal(st: State, h: CK_SESSION_HANDLE, mech: Option<CK_MECHANISM_TYPE>, key: CK_OBJECT_HANDLE) -> Option<CK_RV> {
    match session_index(st, h) {
        None => Some(CKR_SESSION_HANDLE_INVALID),
        Some(i) => if !st.sessions@[i].logged_in {
            Some(CKR_USER_NOT_LOGGED_IN)
        } else if mech is None {
            Some(CKR_ARGUMENTS_BAD)
        } else {
            match key_object(st, st.sessions@[i].slot, key) {
                None => Some(CKR_KEY_HANDLE_INVALID),
                Some(o) => if o.cls != ObjClass::PrivKey || !o.can_sign {
                    Some(CKR_KEY_HANDLE_INVALID)
                } else if !is_sign_mech(mech->0) {
                    Some(CKR_MECHANISM_INVALID)
                } else {
                    None
                },
            }
        },
    }
}

fn key_of<'a>(st: &'a State, slot_id: CK_SLOT_ID, h: CK_OBJECT_HANDLE) -> (r: Option<&'a TokenObject>)
    requires
        slot_id < st.slots@.len(),
    ensures
        match key_object(*st, slot_id, h) {
            Some(o) => r matches Some(x) && *x == o,
            None => r is None,
        },
{
    let n = st.slots.len();
    assert(slot_id < n);
    find(&st.slots[slot_id as usize].token, h)
}

/// `C_SignInit` with the mechanism type (`None` where the caller gave no
/// mechanism): a logged-in session starts signing with a private key that
/// may sign.
pub fn c_sign_init(st: &mut State, h: CK_SESSION_HANDLE, mech: Option<CK_MECHANISM_TYPE>, key: CK_OBJECT_HANDLE) -> (rv: CK_RV)
    requires
        old(st).wf(),
    ensures
        final(st).wf(),
        match sign_init_refusal(*old(st), h, mech, key) {
            Some(e) => rv == e && *final(st) == *old(st),
            None => {
                let i = session_index(*old(st), h)->0;
                &&& rv == CKR_OK
                &&& only_session_changed(*old(st), *final(st), i)
                &&& final(st).sessions@[i] == Session {
                    sign_active: true,
                    sign_key: key,
                    sign_mech: mech->0,
                    sign_buf: final(st).sessions@[i].sign_buf,
                    ..old(st).sessions@[i]
                }
                &&& final(st).sessions@[i].sign_buf@.len() == 0
            },
        },
{
    let i = match session_of(st, h) {
        Some(i) => i,
        None => return CKR_SESSION_HANDLE_INVALID,
    };
    if !st.sessions[i].logged_in {
        return CKR_USER_NOT_LOGGED_IN;
    }
    let m = match mech {
        Some(m) => m,
        None => return CKR_ARGUMENTS_BAD,
    };
    let slot_id = st.sessions[i].slot;
    match key_of(st, slot_id, key) {
        None => return CKR_KEY_HANDLE_INVALID,
        Some(o) => {
            if o.cls != ObjClass::PrivKey || !o.can_sign {
                return CKR_KEY_HANDLE_INVALID;
            }
        },
    }
    if m != CKM_RSA_PKCS && m != CKM_RSA_X_509 && !is_hash_rsa_pkcs(m) {
        return CKR_MECHANISM_INVALID;
    }
    st.sessions[i].sign_active = true;
    st.sessions[i].sign_key = key;
    st.sessions[i].sign_mech = m;
    st.sessions[i].sign_buf = Vec::new();
    proof {
        lemma_only_session_changed_wf(*old(st), *st, i as int);
    }
    CKR_OK
}

/// The bytes a signing mechanism hands to the card for `data`: its
/// DigestInfo for hash-and-sign mechanisms, `data` itself otherwise.
pub open spec fn sign_payload(mech: CK_MECHANISM_TYPE, data: Seq<u8>) -> Seq<u8> {
    match hash_rsa_digest_info(mech, data) {
        Some(d) => d,
        None => data,
    }
}

/// A finished card operation's outcome, with the card conversation after it.
pub type OpOutcome = (CK_RV, Option<CK_ULONG>, Seq<u8>, ConnectionModel);

/// The card operation's outcome as the status, the length reported (if
/// any) and the bytes written.
pub open spec fn op_reply(card: ConnectionModel, res: Result<Seq<u8>, ()>) -> OpOutcome {
    match res {
        Ok(v) => (CKR_OK, Some(v.len() as CK_ULONG), v, card),
        Err(_) => (CKR_FUNCTION_FAILED, None, Seq::empty(), card),
    }
}

/// Signing `data` in session `i` into room for `sig_cap` bytes (`None`
/// where only the length is asked; a signature takes 256 bytes): the key is
/// looked up, the payload prepared, and the card signs it (the raw private
/// operation for `CKM_RSA_X_509`, which needs a full block).
pub open spec fn spec_do_sign(st: State, i: int, data: Seq<u8>, sig_cap: Option<CK_ULONG>, random: Option<Seq<u8>>, log: Seq<Option<Response>>, at: int)
    -> SFlow<OpOutcome> {
    let s = st.sessions@[i];
    match key_object(st, s.slot, s.sign_key) {
        None => SFlow::Done((CKR_KEY_HANDLE_INVALID, None, Seq::empty(), st.card@), at),
        Some(o) => {
            let payload = sign_payload(s.sign_mech, data);
            match sig_cap {
                None => SFlow::Done((CKR_OK, Some(RSA_MODULUS_LEN as CK_ULONG), Seq::empty(), st.card@), at),
                Some(cap) => if cap < RSA_MODULUS_LEN {
                    SFlow::Done((CKR_BUFFER_TOO_SMALL, Some(RSA_MODULUS_LEN as CK_ULONG), Seq::empty(), st.card@), at)
                } else if s.sign_mech == CKM_RSA_X_509 {
                    if payload.len() != RSA_MODULUS_LEN {
                        SFlow::Done((CKR_DATA_LEN_RANGE, None, Seq::empty(), st.card@), at)
                    } else {
                        then(
                            spec_rsa_private_op(st.card@, o.key_ref as u8, payload, RSA_MODULUS_LEN as int, random, log, at),
                            |v: (Result<Seq<u8>, ()>, ConnectionModel), n: int| SFlow::Done(op_reply(v.1, v.0), n),
                        )
                    }
                } else {
                    then(
                        spec_sign(st.card@, o.key_ref as u8, payload, 512, random, log, at),
                        |v: (Result<Seq<u8>, ()>, ConnectionModel), n: int| SFlow::Done(op_reply(v.1, v.0), n),
                    )
                },
            }
        },
    }
}

/// An operation's outcome and what it describes.
pub open spec fn same_op(a: (CK_RV, Option<CK_ULONG>, Vec<u8>), b: OpOutcome) -> bool {
    a.0 == b.0 && a.1 == b.1 && a.2@ == b.2
}

/// The module after a card operation of session `i` finished with the
/// conversation `card`: only the card conversation changed.
pub open spec fn only_card_changed(before: State, after: State, card: ConnectionModel) -> bool {
    &&& same_conn(after.card@, card)
    &&& after.slots == before.slots
    &&& after.sessions == before.sessions
    &&& after.initialized == before.initialized
}

/// Sign `data` in session `i` (see [`spec_do_sign`]).
pub fn do_sign(
    st: &mut State,
    i: usize,
    data: &[u8],
    sig_cap: Option<CK_ULONG>,
    random: &Option<Vec<u8>>,
    log: &[Option<Response>],
    at: usize,
) -> (r: Flow<(CK_RV, Option<CK_ULONG>, Vec<u8>)>)
    requires
        old(st).wf(),
        i < old(st).sessions@.len(),
        old(st).sessions@[i as int].in_use,
        random matches Some(v) ==> v@.len() == 8,
        at <= log@.len(),
    ensures
        final(st).wf(),
        flow_matches(r, spec_do_sign(*old(st), i as int, data@, sig_cap, random_view(*random), log@, at as int), |a, b| same_op(a, b)),
        r is Transmit ==> *final(st) == *old(st),
        spec_do_sign(*old(st), i as int, data@, sig_cap, random_view(*random), log@, at as int) matches SFlow::Done(v, _)
            ==> only_card_changed(*old(st), *final(st), v.3),
{
    let slot_id = st.sessions[i].slot;
    let mech = st.sessions[i].sign_mech;
    let key_ref = match key_of(st, slot_id, st.sessions[i].sign_key) {
        None => return Flow::Done((CKR_KEY_HANDLE_INVALID, None, Vec::new()), at),
        Some(o) => o.key_ref as u8,
    };
    let payload = if is_hash_rsa_pkcs(mech) {
        match digest_info_for_hash_mech(mech, data) {
            Ok(v) => v,
            Err(rv) => return Flow::Done((rv, None, Vec::new()), at),
        }
    } else {
        bytes_to_vec(data)
    };
    let cap = match sig_cap {
        None => return Flow::Done((CKR_OK, Some(RSA_MODULUS_LEN as CK_ULONG), Vec::new()), at),
        Some(cap) => cap,
    };
    if cap < RSA_MODULUS_LEN as CK_ULONG {
        return Flow::Done((CKR_BUFFER_TOO_SMALL, Some(RSA_MODULUS_LEN as CK_ULONG), Vec::new()), at);
    }
    let step = if mech == CKM_RSA_X_509 {
        if payload.len() != RSA_MODULUS_LEN {
            return Flow::Done((CKR_DATA_LEN_RANGE, None, Vec::new()), at);
        }
        rsa_private_op(&st.card, key_ref, &payload, RSA_MODULUS_LEN, random, log, at)
    } else {
        sign(&st.card, key_ref, &payload, 512, random, log, at)
    };
    let (res, card, n) = match step {
        Flow::Transmit(c) => return Flow::Transmit(c),
        Flow::Done((res, card), n) => (res, card, n),
    };
    st.card = card;
    match res {
        Ok(v) => Flow::Done((CKR_OK, Some(v.len() as CK_ULONG), v), n),
        Err(_) => Flow::Done((CKR_FUNCTION_FAILED, None, Vec::new()), n),
    }
}

/// `r` is finished with status `rv`, no length and no bytes, at `at`.
pub open spec fn done_status(r: Flow<(CK_RV, Option<CK_ULONG>, Vec<u8>)>, rv: CK_RV, at: int) -> bool {
    r matches Flow::Done(v, m) && v.0 == rv && v.1 is None && v.2@.len() == 0 && m == at
}

/// The module after a signature in session `i` finished with outcome `v`:
/// the card conversation is the one the operation left, and the operation
/// ends unless only the length was asked and it succeeded.
pub open spec fn sign_ended(before: State, after: State, i: int, v: OpOutcome, ends: bool) -> bool {
    &&& same_conn(after.card@, v.3)
    &&& after.slots == before.slots
    &&& after.initialized == before.initialized
    &&& (ends || v.0 != CKR_OK) ==> after.sessions@ == before.sessions@.update(i, Session { sign_active: false, ..before.sessions@[i] })
    &&& !(ends || v.0 != CKR_OK) ==> after.sessions == before.sessions
}

/// The signing session of handle `h`, if the handle is valid and a
/// signature is active in it.
pub open spec fn signing_session(st: State, h: CK_SESSION_HANDLE) -> Option<int> {
    match session_index(st, h) {
        Some(i) => if st.sessions@[i].sign_active { Some(i) } else { None },
        None => None,
    }
}

/// `C_Sign` as a card dialogue: sign `data` into room for `sig_cap` bytes
/// (`None` where only the length is asked); `has_len` tells whether the
/// caller gave a place for the length.
pub fn c_sign(
    st: &mut State,
    h: CK_SESSION_HANDLE,
    data: &[u8],
    sig_cap: Option<CK_ULONG>,
    has_len: bool,
    random: &Option<Vec<u8>>,
    log: &[Option<Response>],
    at: usize,
) -> (r: Flow<(CK_RV, Option<CK_ULONG>, Vec<u8>)>)
    requires
        old(st).wf(),
        random matches Some(v) ==> v@.len() == 8,
        at <= log@.len(),
    ensures
        final(st).wf(),
        r is Transmit ==> *final(st) == *old(st),
        match signing_session(*old(st), h) {
            None => done_status(r, CKR_OPERATION_NOT_INITIALIZED, at as int) && *final(st) == *old(st),
            Some(i) => if !has_len {
                done_status(r, CKR_ARGUMENTS_BAD, at as int) && *final(st) == *old(st)
            } else {
                let f = spec_do_sign(*old(st), i, data@, sig_cap, random_view(*random), log@, at as int);
                &&& flow_matches(r, f, |a, b| same_op(a, b))
                &&& f matches SFlow::Done(v, _) ==> sign_ended(*old(st), *final(st), i, v, sig_cap is Some)
            },
        },
{
    let i = match session_of(st, h) {
        Some(i) => i,
        None => return Flow::Done((CKR_OPERATION_NOT_INITIALIZED, None, Vec::new()), at),
    };
    if !st.sessions[i].sign_active {
        return Flow::Done((CKR_OPERATION_NOT_INITIALIZED, None, Vec::new()), at);
    }
    if !has_len {
        return Flow::Done((CKR_ARGUMENTS_BAD, None, Vec::new()), at);
    }
    let (out, n) = match do_sign(st, i, data, sig_cap, random, log, at) {
        Flow::Transmit(c) => return Flow::Transmit(c),
        Flow::Done(out, n) => (out, n),
    };
    if sig_cap.is_some() || out.0 != CKR_OK {
        st.sessions[i].sign_active = false;
        proof {
            lemma_only_session_changed_wf(*old(st), *st, i as int);
        }
    }
    Flow::Done(out, n)
}

/// `C_SignUpdate`: `part` joins the data to sign, up to 8192 bytes in all.
pub fn c_sign_update(st: &mut State, h: CK_SESSION_HANDLE, part: &[u8]) -> (rv: CK_RV)
    requires
        old(st).wf(),
    ensures
        final(st).wf(),
        match signing_session(*old(st), h) {
            None => rv == CKR_OPERATION_NOT_INITIALIZED && *final(st) == *old(st),
            Some(i) => if old(st).sessions@[i].sign_buf@.len() + part@.len() > 8192 {
                rv == CKR_DATA_LEN_RANGE && *final(st) == *old(st)
            } else {
                &&& rv == CKR_OK
                &&& only_session_changed(*old(st), *final(st), i)
                &&& final(st).sessions@[i] == Session { sign_buf: final(st).sessions@[i].sign_buf, ..old(st).sessions@[i] }
                &&& final(st).sessions@[i].sign_buf@ == old(st).sessions@[i].sign_buf@ + part@
            },
        },
{
    let i = match session_of(st, h) {
        Some(i) => i,
        None => return CKR_OPERATION_NOT_INITIALIZED,
    };
    if !st.sessions[i].sign_active {
        return CKR_OPERATION_NOT_INITIALIZED;
    }
    if part.len() > 8192 || st.sessions[i].sign_buf.len() > 8192 - part.len() {
        return CKR_DATA_LEN_RANGE;
    }
    st.sessions[i].sign_buf.extend_from_slice(part);
    proof {
        lemma_only_session_changed_wf(*old(st), *st, i as int);
    }
    CKR_OK
}

/// `C_SignFinal` as a card dialogue: sign the data gathered by
/// [`c_sign_update`].
pub fn c_sign_final(
    st: &mut State,
    h: CK_SESSION_HANDLE,
    sig_cap: Option<CK_ULONG>,
    random: &Option<Vec<u8>>,
    log: &[Option<Response>],
    at: usize,
) -> (r: Flow<(CK_RV, Option<CK_ULONG>, Vec<u8>)>)
    requires
        old(st).wf(),
        random matches Some(v) ==> v@.len() == 8,
        at <= log@.len(),
    ensures
        final(st).wf(),
        r is Transmit ==> *final(st) == *old(st),
        match signing_session(*old(st), h) {
            None => done_status(r, CKR_OPERATION_NOT_INITIALIZED, at as int) && *final(st) == *old(st),
            Some(i) => {
                let f = spec_do_sign(*old(st), i, old(st).sessions@[i].sign_buf@, sig_cap, random_view(*random), log@, at as int);
                &&& flow_matches(r, f, |a, b| same_op(a, b))
                &&& f matches SFlow::Done(v, _) ==> sign_ended(*old(st), *final(st), i, v, sig_cap is Some)
            },
        },
{
    let i = match session_of(st, h) {
        Some(i) => i,
        None => return Flow::Done((CKR_OPERATION_NOT_INITIALIZED, None, Vec::new()), at),
    };
    if !st.sessions[i].sign_active {
        return Flow::Done((CKR_OPERATION_NOT_INITIALIZED, None, Vec::new()), at);
    }
    let buf = bytes_to_vec(&st.sessions[i].sign_buf);
    let (out, n) = match do_sign(st, i, &buf, sig_cap, random, log, at) {
        Flow::Transmit(c) => return Flow::Transmit(c),
        Flow::Done(out, n) => (out, n),
    };
    if sig_cap.is_some() || out.0 != CKR_OK {
        st.sessions[i].sign_active = false;
        proof {
            lemma_only_session_changed_wf(*old(st), *st, i as int);
        }
    }
    Flow::Done(out, n)
}

/// Why `C_VerifyInit` is refused, if it is.
pub open spec fn verify_init_refusal(st: State, h: CK_SESSION_HANDLE, mech: Option<CK_MECHANISM_TYPE>, key: CK_OBJECT_HANDLE) -> Option<CK_RV> {
    match session_index(st, h) {
        None => Some(CKR_SESSION_HANDLE_INVALID),
        Some(i) => if mech is None {
            Some(CKR_ARGUMENTS_BAD)
        } else if !is_sign_mech(mech->0) {
            Some(CKR_MECHANISM_INVALID)
        } else {
            match key_object(st, st.sessions@[i].slot, key) {
                None => Some(CKR_KEY_HANDLE_INVALID),
                Some(o) => if o.cls != ObjClass::PubKey {
                    Some(CKR_KEY_HANDLE_INVALID)
                } else if !o.can_verify {
                    Some(CKR_KEY_FUNCTION_NOT_PERMITTED)
                } else if o.modulus@.len() == 0 || o.pubexp@.len() == 0 {
                    Some(CKR_KEY_HANDLE_INVALID)
                } else {
                    None
                },
            }
        },
    }
}

/// `C_VerifyInit` with the mechanism type (`None` where the caller gave no
/// mechanism): verification with a public key that may verify.
pub fn c_verify_init(st: &mut State, h: CK_SESSION_HANDLE, mech: Option<CK_MECHANISM_TYPE>, key: CK_OBJECT_HANDLE) -> (rv: CK_RV)
    requires
        old(st).wf(),
    ensures
        final(st).wf(),
        match verify_init_refusal(*old(st), h, mech, key) {
            Some(e) => rv == e && *final(st) == *old(st),
            None => {
                let i = session_index(*old(st), h)->0;
                &&& rv == CKR_OK
                &&& only_session_changed(*old(st), *final(st), i)
                &&& final(st).sessions@[i] == Session {
                    verify_active: true,
                    verify_key: key,
                    verify_mech: mech->0,
                    verify_buf: final(st).sessions@[i].verify_buf,
                    ..old(st).sessions@[i]
                }
                &&& final(st).sessions@[i].verify_buf@.len() == 0
            },
        },
{
    let i = match session_of(st, h) {
        Some(i) => i,
        None => return CKR_SESSION_HANDLE_INVALID,
    };
    let m = match mech {
        Some(m) => m,
        None => return CKR_ARGUMENTS_BAD,
    };
    if m != CKM_RSA_PKCS && m != CKM_RSA_X_509 && !is_hash_rsa_pkcs(m) {
        return CKR_MECHANISM_INVALID;
    }
    let slot_id = st.sessions[i].slot;
    match key_of(st, slot_id, key) {
        None => return CKR_KEY_HANDLE_INVALID,
        Some(o) => {
            if o.cls != ObjClass::PubKey {
                return CKR_KEY_HANDLE_INVALID;
            }
            if !o.can_verify {
                return CKR_KEY_FUNCTION_NOT_PERMITTED;
            }
            if o.modulus.len() == 0 || o.pubexp.len() == 0 {
                return CKR_KEY_HANDLE_INVALID;
            }
        },
    }
    st.sessions[i].verify_active = true;
    st.sessions[i].verify_key = key;
    st.sessions[i].verify_mech = m;
    st.sessions[i].verify_buf = Vec::new();
    proof {
        lemma_only_session_changed_wf(*old(st), *st, i as int);
    }
    CKR_OK
}

/// Status of verifying `signature` over `data` in session `i`: by the
/// session's key and mechanism (raw RSA, PKCS#1 v1.5 over the data, or over
/// its DigestInfo).
pub open spec fn verify_rv_of(st: State, i: int, data: Seq<u8>, signature: Seq<u8>) -> CK_RV {
    let s = st.sessions@[i];
    match key_object(st, s.slot, s.verify_key) {
        None => CKR_KEY_HANDLE_INVALID,
        Some(o) => if s.verify_mech == CKM_RSA_X_509 {
            x509_verify_rv(o.modulus@, o.pubexp@, data, signature)
        } else if is_hash_rsa_mech(s.verify_mech) {
            pkcs1_verify_rv(o.modulus@, o.pubexp@, sign_payload(s.verify_mech, data), signature)
        } else if s.verify_mech == CKM_RSA_PKCS {
            pkcs1_verify_rv(o.modulus@, o.pubexp@, data, signature)
        } else {
            CKR_MECHANISM_INVALID
        },
    }
}

/// Inputs on which verification is defined: PKCS#1 v1.5 over empty data
/// needs a modulus of at least three bytes (the padding arithmetic would
/// otherwise underflow).
pub open spec fn verify_defined(st: State, i: int, data: Seq<u8>) -> bool {
    let s = st.sessions@[i];
    match key_object(st, s.slot, s.verify_key) {
        None => true,
        Some(o) => !(s.verify_mech == CKM_RSA_PKCS && data.len() == 0 && o.modulus@.len() < 3),
    }
}

/// Verify `signature` over `data` in session `i`.
pub fn do_verify(st: &State, i: usize, data: &[u8], signature: &[u8]) -> (rv: CK_RV)
    requires
        st.wf(),
        i < st.sessions@.len(),
        st.sessions@[i as int].in_use,
        verify_defined(*st, i as int, data@),
    ensures
        rv == verify_rv_of(*st, i as int, data@, signature@),
{
    let slot_id = st.sessions[i].slot;
    let mech = st.sessions[i].verify_mech;
    let o = match key_of(st, slot_id, st.sessions[i].verify_key) {
        None => return CKR_KEY_HANDLE_INVALID,
        Some(o) => o,
    };
    if mech == CKM_RSA_X_509 {
        return verify_rsa_x509(&o.modulus, &o.pubexp, data, signature);
    }
    if is_hash_rsa_pkcs(mech) {
        let payload = match digest_info_for_hash_mech(mech, data) {
            Ok(v) => v,
            Err(rv) => return rv,
        };
        verify_rsa_pkcs1_v15(&o.modulus, &o.pubexp, &payload, signature)
    } else if mech == CKM_RSA_PKCS {
        verify_rsa_pkcs1_v15(&o.modulus, &o.pubexp, data, signature)
    } else {
        CKR_MECHANISM_INVALID
    }
}

/// The verifying session of handle `h`: `Err` with the status when the
/// handle is invalid or no verification is active.
pub open spec fn verifying_session(st: State, h: CK_SESSION_HANDLE) -> Result<int, CK_RV> {
    match session_index(st, h) {
        Some(i) => if st.sessions@[i].verify_active { Ok(i) } else { Err(CKR_OPERATION_NOT_INITIALIZED) },
        None => Err(CKR_SESSION_HANDLE_INVALID),
    }
}

/// The module after a verification in session `i` ended.
pub open spec fn verify_ended(before: State, after: State, i: int) -> bool {
    &&& only_session_changed(before, after, i)
    &&& after.sessions@[i] == Session { verify_active: false, verify_buf: after.sessions@[i].verify_buf, ..before.sessions@[i] }
    &&& after.sessions@[i].verify_buf@.len() == 0
}

/// `C_Verify` with the data and the signature (`None` where the caller gave
/// a length but no bytes); the verification ends.
pub fn c_verify(st: &mut State, h: CK_SESSION_HANDLE, data: Option<&[u8]>, signature: Option<&[u8]>) -> (rv: CK_RV)
    requires
        old(st).wf(),
        verifying_session(*old(st), h) matches Ok(i) ==> (data matches Some(d) ==> verify_defined(*old(st), i, d@)),
    ensures
        final(st).wf(),
        match verifying_session(*old(st), h) {
            Err(e) => rv == e && *final(st) == *old(st),
            Ok(i) => if data is None || signature is None {
                rv == CKR_ARGUMENTS_BAD && *final(st) == *old(st)
            } else {
                rv == verify_rv_of(*old(st), i, data->0@, signature->0@) && verify_ended(*old(st), *final(st), i)
            },
        },
{
    let i = match session_of(st, h) {
        Some(i) => i,
        None => return CKR_SESSION_HANDLE_INVALID,
    };
    if !st.sessions[i].verify_active {
        return CKR_OPERATION_NOT_INITIALIZED;
    }
    let (d, sig) = match (data, signature) {
        (Some(d), Some(sig)) => (d, sig),
        _ => return CKR_ARGUMENTS_BAD,
    };
    let rv = do_verify(st, i, d, sig);
    st.sessions[i].verify_active = false;
    st.sessions[i].verify_buf = Vec::new();
    proof {
        lemma_only_session_changed_wf(*old(st), *st, i as int);
    }
    rv
}

/// `C_VerifyUpdate`: `part` (`None` where the caller gave a length but no
/// bytes) joins the data to verify, up to 8192 bytes in all.
pub fn c_verify_update(st: &mut State, h: CK_SESSION_HANDLE, part: Option<&[u8]>) -> (rv: CK_RV)
    requires
        old(st).wf(),
    ensures
        final(st).wf(),
        match verifying_session(*old(st), h) {
            Err(e) => rv == e && *final(st) == *old(st),
            Ok(i) => match part {
                None => rv == CKR_ARGUMENTS_BAD && *final(st) == *old(st),
                Some(p) => if old(st).sessions@[i].verify_buf@.len() + p@.len() > 8192 {
                    rv == CKR_DATA_LEN_RANGE && *final(st) == *old(st)
                } else {
                    &&& rv == CKR_OK
                    &&& only_session_changed(*old(st), *final(st), i)
                    &&& final(st).sessions@[i] == Session { verify_buf: final(st).sessions@[i].verify_buf, ..old(st).sessions@[i] }
                    &&& final(st).sessions@[i].verify_buf@ == old(st).sessions@[i].verify_buf@ + p@
                },
            },
        },
{
    let i = match session_of(st, h) {
        Some(i) => i,
        None => return CKR_SESSION_HANDLE_INVALID,
    };
    if !st.sessions[i].verify_active {
        return CKR_OPERATION_NOT_INITIALIZED;
    }
    let p = match part {
        None => return CKR_ARGUMENTS_BAD,
        Some(p) => p,
    };
    if p.len() > 8192 || st.sessions[i].verify_buf.len() > 8192 - p.len() {
        return CKR_DATA_LEN_RANGE;
    }
    st.sessions[i].verify_buf.extend_from_slice(p);
    proof {
        lemma_only_session_changed_wf(*old(st), *st, i as int);
    }
    CKR_OK
}

/// `C_VerifyFinal`: verify `signature` (`None` where the caller gave a
/// length but no bytes) over the data gathered; the verification ends.
pub fn c_verify_final(st: &mut State, h: CK_SESSION_HANDLE, signature: Option<&[u8]>) -> (rv: CK_RV)
    requires
        old(st).wf(),
        verifying_session(*old(st), h) matches Ok(i) ==> verify_defined(*old(st), i, old(st).sessions@[i].verify_buf@),
    ensures
        final(st).wf(),
        match verifying_session(*old(st), h) {
            Err(e) => rv == e && *final(st) == *old(st),
            Ok(i) => match signature {
                None => rv == CKR_ARGUMENTS_BAD && *final(st) == *old(st),
                Some(sig) => rv == verify_rv_of(*old(st), i, old(st).sessions@[i].verify_buf@, sig@)
                    && verify_ended(*old(st), *final(st), i),
            },
        },
{
    let i = match session_of(st, h) {
        Some(i) => i,
        None => return CKR_SESSION_HANDLE_INVALID,
    };
    if !st.sessions[i].verify_active {
        return CKR_OPERATION_NOT_INITIALIZED;
    }
    let sig = match signature {
        None => return CKR_ARGUMENTS_BAD,
        Some(s) => s,
    };
    let data = bytes_to_vec(&st.sessions[i].verify_buf);
    let rv = do_verify(st, i, &data, sig);
    st.sessions[i].verify_active = false;
    st.sessions[i].verify_buf = Vec::new();
    proof {
        lemma_only_session_changed_wf(*old(st), *st, i as int);
    }
    rv
}

/// The decryption mechanisms: PKCS#1 v1.5, raw RSA and RSA-OAEP.
pub open spec fn is_crypt_mech(mech: CK_MECHANISM_TYPE) -> bool {
    mech == CKM_RSA_PKCS || mech == CKM_RSA_X_509 || mech == CKM_RSA_PKCS_OAEP
}

/// OAEP hash and label a mechanism sets: its parameters for RSA-OAEP,
/// SHA-256 and no label otherwise.
pub open spec fn oaep_settings(m: CK_MECHANISM) -> Result<(CK_MECHANISM_TYPE, Seq<u8>), CK_RV> {
    if m.mechanism == CKM_RSA_PKCS_OAEP { oaep_params_of(m) } else { Ok((CKM_SHA256, Seq::empty())) }
}

/// Why `C_DecryptInit` is refused, if it is.
pub open spec fn decrypt_init_refusal(st: State, h: CK_SESSION_HANDLE, mech: Option<CK_MECHANISM>, key: CK_OBJECT_HANDLE) -> Option<CK_RV> {
    match session_index(st, h) {
        None => Some(CKR_SESSION_HANDLE_INVALID),
        Some(i) => if !st.sessions@[i].logged_in {
            Some(CKR_USER_NOT_LOGGED_IN)
        } else if mech is None {
            Some(CKR_ARGUMENTS_BAD)
        } else {
            match key_object(st, st.sessions@[i].slot, key) {
                None => Some(CKR_KEY_HANDLE_INVALID),
                Some(o) => if o.cls != ObjClass::PrivKey || !o.can_decrypt {
                    Some(CKR_KEY_HANDLE_INVALID)
                } else if !is_crypt_mech(mech->0.mechanism) {
                    Some(CKR_MECHANISM_INVALID)
                } else {
                    match oaep_settings(mech->0) {
                        Err(e) => Some(e),
                        Ok(_) => None,
                    }
                },
            }
        },
    }
}

fn oaep_settings_of(m: &CK_MECHANISM) -> (r: Result<(CK_MECHANISM_TYPE, Vec<u8>), CK_RV>)
    requires
        mechanism_wf(*m),
    ensures
        match oaep_settings(*m) {
            Ok((hh, l)) => r matches Ok((h2, l2)) && h2 == hh && l2@ == l,
            Err(e) => r == Err::<(CK_MECHANISM_TYPE, Vec<u8>), CK_RV>(e),
        },
{
    if m.mechanism == CKM_RSA_PKCS_OAEP { parse_oaep_params(m) } else { Ok((CKM_SHA256, Vec::new())) }
}

/// `C_DecryptInit` (`mech` is `None` where the caller gave no mechanism):
/// a logged-in session starts decrypting with a private key that may
/// decrypt.
pub fn c_decrypt_init(st: &mut State, h: CK_SESSION_HANDLE, mech: Option<&CK_MECHANISM>, key: CK_OBJECT_HANDLE) -> (rv: CK_RV)
    requires
        old(st).wf(),
        mech matches Some(m) ==> mechanism_wf(*m),
    ensures
        final(st).wf(),
        match decrypt_init_refusal(*old(st), h, match mech { Some(m) => Some(*m), None => None }, key) {
            Some(e) => rv == e && *final(st) == *old(st),
            None => {
                let i = session_index(*old(st), h)->0;
                let m = *mech->0;
                let (hh, l) = oaep_settings(m)->Ok_0;
                let s = final(st).sessions@[i];
                &&& rv == CKR_OK
                &&& only_session_changed(*old(st), *final(st), i)
                &&& s == Session {
                    decrypt_active: true,
                    decrypt_key: key,
                    decrypt_mech: m.mechanism,
                    decrypt_buf: s.decrypt_buf,
                    decrypt_plain: None,
                    decrypt_oaep_hash: hh,
                    decrypt_oaep_label: s.decrypt_oaep_label,
                    ..old(st).sessions@[i]
                }
                &&& s.decrypt_buf@.len() == 0 && s.decrypt_oaep_label@ == l
            },
        },
{
    let i = match session_of(st, h) {
        Some(i) => i,
        None => return CKR_SESSION_HANDLE_INVALID,
    };
    if !st.sessions[i].logged_in {
        return CKR_USER_NOT_LOGGED_IN;
    }
    let m = match mech {
        Some(m) => m,
        None => return CKR_ARGUMENTS_BAD,
    };
    let slot_id = st.sessions[i].slot;
    match key_of(st, slot_id, key) {
        None => return CKR_KEY_HANDLE_INVALID,
        Some(o) => {
            if o.cls != ObjClass::PrivKey || !o.can_decrypt {
                return CKR_KEY_HANDLE_INVALID;
            }
        },
    }
    if m.mechanism != CKM_RSA_PKCS && m.mechanism != CKM_RSA_X_509 && m.mechanism != CKM_RSA_PKCS_OAEP {
        return CKR_MECHANISM_INVALID;
    }
    let (oaep_hash, oaep_label) = match oaep_settings_of(m) {
        Ok(v) => v,
        Err(rv) => return rv,
    };
    st.sessions[i].decrypt_active = true;
    st.sessions[i].decrypt_key = key;
    st.sessions[i].decrypt_mech = m.mechanism;
    st.sessions[i].decrypt_buf = Vec::new();
    st.sessions[i].decrypt_plain = None;
    st.sessions[i].decrypt_oaep_hash = oaep_hash;
    st.sessions[i].decrypt_oaep_label = oaep_label;
    proof {
        lemma_only_session_changed_wf(*old(st), *st, i as int);
    }
    CKR_OK
}

/// A finished decryption's outcome: status, length reported, bytes written,
/// the card conversation after it, and the plaintext kept for a retry.
pub type DecOutcome = (CK_RV, Option<CK_ULONG>, Seq<u8>, ConnectionModel, Option<Seq<u8>>);

/// Handing out plaintext `p` into room for `cap` bytes: too small a buffer
/// gets the length and the plaintext is kept for a retry.
pub open spec fn hand_out(p: Seq<u8>, cap: CK_ULONG, card: ConnectionModel) -> DecOutcome {
    if cap < p.len() {
        (CKR_BUFFER_TOO_SMALL, Some(p.len() as CK_ULONG), Seq::empty(), card, Some(p))
    } else {
        (CKR_OK, Some(p.len() as CK_ULONG), p, card, None)
    }
}

/// The outcome of a decryption by the card that failed.
pub open spec fn dec_failed(rv: CK_RV, card: ConnectionModel) -> DecOutcome {
    (rv, None, Seq::empty(), card, None)
}

/// Decrypting `cipher` in session `i` into room for `out_cap` bytes
/// (`None` where only the length is asked: the kept plaintext's, or the
/// ciphertext's as a bound): plaintext kept from an earlier attempt is
/// handed out; otherwise the card decrypts (PKCS#1 v1.5 unpadding on the
/// host), or performs the raw operation on a full block, then OAEP decoding
/// for RSA-OAEP.
pub open spec fn spec_do_decrypt(st: State, i: int, cipher: Seq<u8>, out_cap: Option<CK_ULONG>, random: Option<Seq<u8>>, log: Seq<Option<Response>>, at: int)
    -> SFlow<DecOutcome> {
    let s = st.sessions@[i];
    let card = st.card@;
    let kept = match s.decrypt_plain { Some(p) => Some(p@), None => None };
    match key_object(st, s.slot, s.decrypt_key) {
        None => SFlow::Done((CKR_KEY_HANDLE_INVALID, None, Seq::empty(), card, kept), at),
        Some(o) => match out_cap {
            None => SFlow::Done((CKR_OK, Some(match kept { Some(p) => p.len() as CK_ULONG, None => cipher.len() as CK_ULONG }), Seq::empty(), card, kept), at),
            Some(cap) => match kept {
                Some(p) => SFlow::Done(hand_out(p, cap, card), at),
                None => if s.decrypt_mech == CKM_RSA_PKCS {
                    then(
                        spec_decrypt(card, o.key_ref as u8, cipher, 512, random, log, at),
                        |v: (Result<Seq<u8>, ()>, ConnectionModel), n: int| SFlow::Done(
                            match v.0 { Ok(p) => hand_out(p, cap, v.1), Err(_) => dec_failed(CKR_FUNCTION_FAILED, v.1) },
                            n,
                        ),
                    )
                } else if s.decrypt_mech == CKM_RSA_X_509 {
                    if cipher.len() != RSA_MODULUS_LEN {
                        SFlow::Done(dec_failed(CKR_DATA_LEN_RANGE, card), at)
                    } else {
                        then(
                            spec_rsa_private_op(card, o.key_ref as u8, cipher, RSA_MODULUS_LEN as int, random, log, at),
                            |v: (Result<Seq<u8>, ()>, ConnectionModel), n: int| SFlow::Done(
                                match v.0 { Ok(p) => hand_out(p, cap, v.1), Err(_) => dec_failed(CKR_FUNCTION_FAILED, v.1) },
                                n,
                            ),
                        )
                    }
                } else if s.decrypt_mech == CKM_RSA_PKCS_OAEP {
                    then(
                        spec_rsa_private_op(card, o.key_ref as u8, cipher, RSA_MODULUS_LEN as int, random, log, at),
                        |v: (Result<Seq<u8>, ()>, ConnectionModel), n: int| SFlow::Done(
                            match v.0 {
                                Ok(raw) => match oaep_decode_result(s.decrypt_oaep_hash, s.decrypt_oaep_label@, raw) {
                                    Ok(p) => hand_out(p, cap, v.1),
                                    Err(e) => dec_failed(e, v.1),
                                },
                                Err(_) => dec_failed(CKR_FUNCTION_FAILED, v.1),
                            },
                            n,
                        ),
                    )
                } else {
                    SFlow::Done(dec_failed(CKR_MECHANISM_INVALID, card), at)
                },
            },
        },
    }
}

/// A decryption's outcome and what it describes.
pub open spec fn same_dec(a: (CK_RV, Option<CK_ULONG>, Vec<u8>), b: DecOutcome) -> bool {
    a.0 == b.0 && a.1 == b.1 && a.2@ == b.2
}

/// The module after decryption step `v` in session `i`: the card
/// conversation and the kept plaintext are the outcome's.
pub open spec fn dec_applied(before: State, after: State, i: int, v: DecOutcome) -> bool {
    &&& same_conn(after.card@, v.3)
    &&& only_session_changed(State { card: after.card, ..before }, after, i)
    &&& after.sessions@[i] == Session { decrypt_plain: after.sessions@[i].decrypt_plain, ..before.sessions@[i] }
    &&& match v.4 {
        Some(p) => after.sessions@[i].decrypt_plain matches Some(q) && q@ == p,
        None => after.sessions@[i].decrypt_plain is None,
    }
}

fn hand_out_exec(p: Vec<u8>, cap: CK_ULONG) -> (r: ((CK_RV, Option<CK_ULONG>, Vec<u8>), Option<Vec<u8>>))
    ensures
        ({
            let e = hand_out(p@, cap, arbitrary());
            &&& r.0.0 == e.0 && r.0.1 == e.1 && r.0.2@ == e.2
            &&& match e.4 {
                Some(q) => r.1 matches Some(x) && x@ == q,
                None => r.1 is None,
            }
        }),
{
    let n = p.len() as CK_ULONG;
    if cap < n {
        ((CKR_BUFFER_TOO_SMALL, Some(n), Vec::new()), Some(p))
    } else {
        ((CKR_OK, Some(n), p), None)
    }
}

/// Decrypt `cipher` in session `i` (see [`spec_do_decrypt`]).
#[verifier::rlimit(80)]
pub fn do_decrypt(
    st: &mut State,
    i: usize,
    cipher: &[u8],
    out_cap: Option<CK_ULONG>,
    random: &Option<Vec<u8>>,
    log: &[Option<Response>],
    at: usize,
) -> (r: Flow<(CK_RV, Option<CK_ULONG>, Vec<u8>)>)
    requires
        old(st).wf(),
        i < old(st).sessions@.len(),
        old(st).sessions@[i as int].in_use,
        random matches Some(v) ==> v@.len() == 8,
        at <= log@.len(),
    ensures
        final(st).wf(),
        flow_matches(r, spec_do_decrypt(*old(st), i as int, cipher@, out_cap, random_view(*random), log@, at as int), |a, b| same_dec(a, b)),
        r is Transmit ==> *final(st) == *old(st),
        spec_do_decrypt(*old(st), i as int, cipher@, out_cap, random_view(*random), log@, at as int) matches SFlow::Done(v, _)
            ==> dec_applied(*old(st), *final(st), i as int, v),
{
    let slot_id = st.sessions[i].slot;
    let key_ref = match key_of(st, slot_id, st.sessions[i].decrypt_key) {
        None => return Flow::Done((CKR_KEY_HANDLE_INVALID, None, Vec::new()), at),
        Some(o) => o.key_ref as u8,
    };
    let cap = match out_cap {
        None => {
            let n = match &st.sessions[i].decrypt_plain {
                Some(p) => p.len() as CK_ULONG,
                None => cipher.len() as CK_ULONG,
            };
            return Flow::Done((CKR_OK, Some(n), Vec::new()), at);
        },
        Some(cap) => cap,
    };
    if st.sessions[i].decrypt_plain.is_some() {
        let kept = st.sessions[i].decrypt_plain.take();
        let p = match kept {
            Some(p) => p,
            None => Vec::new(),
        };
        let (out, keep) = hand_out_exec(p, cap);
        st.sessions[i].decrypt_plain = keep;
        proof {
            lemma_only_session_changed_wf(*old(st), *st, i as int);
        }
        return Flow::Done(out, at);
    }
    let mech = st.sessions[i].decrypt_mech;
    let step = if mech == CKM_RSA_PKCS {
        decrypt(&st.card, key_ref, cipher, 512, random, log, at)
    } else if mech == CKM_RSA_X_509 || mech == CKM_RSA_PKCS_OAEP {
        if mech == CKM_RSA_X_509 && cipher.len() != RSA_MODULUS_LEN {
            return Flow::Done((CKR_DATA_LEN_RANGE, None, Vec::new()), at);
        }
        rsa_private_op(&st.card, key_ref, cipher, RSA_MODULUS_LEN, random, log, at)
    } else {
        return Flow::Done((CKR_MECHANISM_INVALID, None, Vec::new()), at);
    };
    let (res, card, n) = match step {
        Flow::Transmit(c) => return Flow::Transmit(c),
        Flow::Done((res, card), n) => (res, card, n),
    };
    st.card = card;
    let plain = match res {
        Err(_) => return Flow::Done((CKR_FUNCTION_FAILED, None, Vec::new()), n),
        Ok(raw) => if mech == CKM_RSA_PKCS_OAEP {
            match oaep_decode(st.sessions[i].decrypt_oaep_hash, &st.sessions[i].decrypt_oaep_label, &raw) {
                Ok(p) => p,
                Err(rv) => return Flow::Done((rv, None, Vec::new()), n),
            }
        } else {
            raw
        },
    };
    let (out, keep) = hand_out_exec(plain, cap);
    st.sessions[i].decrypt_plain = keep;
    proof {
        lemma_only_session_changed_wf(*old(st), *st, i as int);
    }
    Flow::Done(out, n)
}

/// The decrypting session of handle `h`, if the handle is valid and a
/// decryption is active in it.
pub open spec fn decrypting_session(st: State, h: CK_SESSION_HANDLE) -> Option<int> {
    match session_index(st, h) {
        Some(i) => if st.sessions@[i].decrypt_active { Some(i) } else { None },
        None => None,
    }
}

/// The module after a decryption step `v` in session `i`, when the caller
/// gave a buffer (`has_buf`): unless the buffer was too small the operation
/// ends, its buffer emptied and no plaintext kept; otherwise as the step
/// left it.
pub open spec fn dec_ended(before: State, after: State, i: int, v: DecOutcome, has_buf: bool) -> bool {
    if has_buf && v.0 != CKR_BUFFER_TOO_SMALL {
        &&& same_conn(after.card@, v.3)
        &&& only_session_changed(State { card: after.card, ..before }, after, i)
        &&& after.sessions@[i] == Session {
            decrypt_active: false,
            decrypt_buf: after.sessions@[i].decrypt_buf,
            decrypt_plain: None,
            ..before.sessions@[i]
        }
        &&& after.sessions@[i].decrypt_buf@.len() == 0
    } else {
        dec_applied(before, after, i, v)
    }
}

fn end_decrypt(st: &mut State, i: usize, rv: CK_RV, has_buf: bool)
    requires
        old(st).wf(),
        i < old(st).sessions@.len(),
    ensures
        final(st).wf(),
        final(st).card == old(st).card,
        has_buf && rv != CKR_BUFFER_TOO_SMALL ==> {
            &&& only_session_changed(*old(st), *final(st), i as int)
            &&& final(st).sessions@[i as int] == Session {
                decrypt_active: false,
                decrypt_buf: final(st).sessions@[i as int].decrypt_buf,
                decrypt_plain: if rv != CKR_OK { None } else { old(st).sessions@[i as int].decrypt_plain },
                ..old(st).sessions@[i as int]
            }
            &&& final(st).sessions@[i as int].decrypt_buf@.len() == 0
        },
        !(has_buf && rv != CKR_BUFFER_TOO_SMALL) ==> *final(st) == *old(st),
{
    if has_buf && rv != CKR_BUFFER_TOO_SMALL {
        st.sessions[i].decrypt_active = false;
        st.sessions[i].decrypt_buf = Vec::new();
        if rv != CKR_OK {
            st.sessions[i].decrypt_plain = None;
        }
        proof {
            lemma_only_session_changed_wf(*old(st), *st, i as int);
        }
    }
}

/// `C_Decrypt` as a card dialogue: decrypt `cipher` into room for
/// `out_cap` bytes (`None` where only the length is asked); `has_len` tells
/// whether the caller gave a place for the length.
pub fn c_decrypt(
    st: &mut State,
    h: CK_SESSION_HANDLE,
    cipher: &[u8],
    out_cap: Option<CK_ULONG>,
    has_len: bool,
    random: &Option<Vec<u8>>,
    log: &[Option<Response>],
    at: usize,
) -> (r: Flow<(CK_RV, Option<CK_ULONG>, Vec<u8>)>)
    requires
        old(st).wf(),
        random matches Some(v) ==> v@.len() == 8,
        at <= log@.len(),
    ensures
        final(st).wf(),
        r is Transmit ==> *final(st) == *old(st),
        match decrypting_session(*old(st), h) {
            None => done_status(r, CKR_OPERATION_NOT_INITIALIZED, at as int) && *final(st) == *old(st),
            Some(i) => if !has_len {
                done_status(r, CKR_ARGUMENTS_BAD, at as int) && *final(st) == *old(st)
            } else {
                let f = spec_do_decrypt(*old(st), i, cipher@, out_cap, random_view(*random), log@, at as int);
                &&& flow_matches(r, f, |a, b| same_dec(a, b))
                &&& f matches SFlow::Done(v, _) ==> dec_ended(*old(st), *final(st), i, v, out_cap is Some)
            },
        },
{
    let i = match session_of(st, h) {
        Some(i) => i,
        None => return Flow::Done((CKR_OPERATION_NOT_INITIALIZED, None, Vec::new()), at),
    };
    if !st.sessions[i].decrypt_active {
        return Flow::Done((CKR_OPERATION_NOT_INITIALIZED, None, Vec::new()), at);
    }
    if !has_len {
        return Flow::Done((CKR_ARGUMENTS_BAD, None, Vec::new()), at);
    }
    let (out, n) = match do_decrypt(st, i, cipher, out_cap, random, log, at) {
        Flow::Transmit(c) => return Flow::Transmit(c),
        Flow::Done(out, n) => (out, n),
    };
    end_decrypt(st, i, out.0, out_cap.is_some());
    Flow::Done(out, n)
}

/// `C_DecryptUpdate`: `part` joins the ciphertext, up to 512 bytes in all;
/// nothing is decrypted before the final call. `has_len` tells whether the
/// caller gave a place for the (empty) output's length.
pub fn c_decrypt_update(st: &mut State, h: CK_SESSION_HANDLE, part: &[u8], has_len: bool) -> (rv: CK_RV)
    requires
        old(st).wf(),
    ensures
        final(st).wf(),
        match decrypting_session(*old(st), h) {
            None => rv == CKR_OPERATION_NOT_INITIALIZED && *final(st) == *old(st),
            Some(i) => if !has_len {
                rv == CKR_ARGUMENTS_BAD && *final(st) == *old(st)
            } else if old(st).sessions@[i].decrypt_buf@.len() + part@.len() > 512 {
                rv == CKR_DATA_LEN_RANGE && *final(st) == *old(st)
            } else {
                &&& rv == CKR_OK
                &&& only_session_changed(*old(st), *final(st), i)
                &&& final(st).sessions@[i] == Session { decrypt_buf: final(st).sessions@[i].decrypt_buf, ..old(st).sessions@[i] }
                &&& final(st).sessions@[i].decrypt_buf@ == old(st).sessions@[i].decrypt_buf@ + part@
            },
        },
{
    let i = match session_of(st, h) {
        Some(i) => i,
        None => return CKR_OPERATION_NOT_INITIALIZED,
    };
    if !st.sessions[i].decrypt_active {
        return CKR_OPERATION_NOT_INITIALIZED;
    }
    if !has_len {
        return CKR_ARGUMENTS_BAD;
    }
    if part.len() > 512 || st.sessions[i].decrypt_buf.len() > 512 - part.len() {
        return CKR_DATA_LEN_RANGE;
    }
    st.sessions[i].decrypt_buf.extend_from_slice(part);
    proof {
        lemma_only_session_changed_wf(*old(st), *st, i as int);
    }
    CKR_OK
}

/// `C_DecryptFinal` as a card dialogue: decrypt the ciphertext gathered by
/// [`c_decrypt_update`].
pub fn c_decrypt_final(
    st: &mut State,
    h: CK_SESSION_HANDLE,
    out_cap: Option<CK_ULONG>,
    has_len: bool,
    random: &Option<Vec<u8>>,
    log: &[Option<Response>],
    at: usize,
) -> (r: Flow<(CK_RV, Option<CK_ULONG>, Vec<u8>)>)
    requires
        old(st).wf(),
        random matches Some(v) ==> v@.len() == 8,
        at <= log@.len(),
    ensures
        final(st).wf(),
        r is Transmit ==> *final(st) == *old(st),
        match decrypting_session(*old(st), h) {
            None => done_status(r, CKR_OPERATION_NOT_INITIALIZED, at as int) && *final(st) == *old(st),
            Some(i) => if !has_len {
                done_status(r, CKR_ARGUMENTS_BAD, at as int) && *final(st) == *old(st)
            } else {
                let f = spec_do_decrypt(*old(st), i, old(st).sessions@[i].decrypt_buf@, out_cap, random_view(*random), log@, at as int);
                &&& flow_matches(r, f, |a, b| same_dec(a, b))
                &&& f matches SFlow::Done(v, _) ==> dec_ended(*old(st), *final(st), i, v, out_cap is Some)
            },
        },
{
    let i = match session_of(st, h) {
        Some(i) => i,
        None => return Flow::Done((CKR_OPERATION_NOT_INITIALIZED, None, Vec::new()), at),
    };
    if !st.sessions[i].decrypt_active {
        return Flow::Done((CKR_OPERATION_NOT_INITIALIZED, None, Vec::new()), at);
    }
    if !has_len {
        return Flow::Done((CKR_ARGUMENTS_BAD, None, Vec::new()), at);
    }
    let cipher = bytes_to_vec(&st.sessions[i].decrypt_buf);
    let (out, n) = match do_decrypt(st, i, &cipher, out_cap, random, log, at) {
        Flow::Transmit(c) => return Flow::Transmit(c),
        Flow::Done(out, n) => (out, n),
    };
    end_decrypt(st, i, out.0, out_cap.is_some());
    Flow::Done(out, n)
}

/// The checks of `C_EncryptInit` before the card is needed: the session's
/// slot, or the status refusing the call.
pub open spec fn encrypt_init_check(st: State, h: CK_SESSION_HANDLE, mech: Option<CK_MECHANISM>) -> Result<CK_SLOT_ID, CK_RV> {
    match session_index(st, h) {
        None => Err(CKR_SESSION_HANDLE_INVALID),
        Some(i) => match mech {
            None => Err(CKR_ARGUMENTS_BAD),
            Some(m) => if !is_crypt_mech(m.mechanism) {
                Err(CKR_MECHANISM_INVALID)
            } else {
                match oaep_settings(m) {
                    Err(e) => Err(e),
                    Ok(_) => Ok(st.sessions@[i].slot),
                }
            },
        },
    }
}

/// The checks of `C_EncryptInit` before the card is needed (`mech` is
/// `None` where the caller gave no mechanism): the slot whose card must be
/// read, or the status refusing the call.
pub fn encrypt_init_target(st: &State, h: CK_SESSION_HANDLE, mech: Option<&CK_MECHANISM>) -> (r: Result<CK_SLOT_ID, CK_RV>)
    requires
        mech matches Some(m) ==> mechanism_wf(*m),
    ensures
        r == encrypt_init_check(*st, h, match mech { Some(m) => Some(*m), None => None }),
{
    let i = match session_of(st, h) {
        Some(i) => i,
        None => return Err(CKR_SESSION_HANDLE_INVALID),
    };
    let m = match mech {
        Some(m) => m,
        None => return Err(CKR_ARGUMENTS_BAD),
    };
    if m.mechanism != CKM_RSA_PKCS && m.mechanism != CKM_RSA_X_509 && m.mechanism != CKM_RSA_PKCS_OAEP {
        return Err(CKR_MECHANISM_INVALID);
    }
    match oaep_settings_of(m) {
        Ok(_) => Ok(st.sessions[i].slot),
        Err(rv) => Err(rv),
    }
}

/// Why `C_EncryptInit` is refused once the card is read, if it is.
pub open spec fn encrypt_init_refusal(st: State, h: CK_SESSION_HANDLE, mech: Option<CK_MECHANISM>, key: CK_OBJECT_HANDLE) -> Option<CK_RV> {
    match encrypt_init_check(st, h, mech) {
        Err(e) => Some(e),
        Ok(slot_id) => match key_object(st, slot_id, key) {
            None => Some(CKR_KEY_HANDLE_INVALID),
            Some(o) => if o.cls != ObjClass::PubKey || !o.can_encrypt || o.modulus@.len() == 0 || o.pubexp@.len() == 0 {
                Some(CKR_KEY_HANDLE_INVALID)
            } else {
                None
            },
        },
    }
}

/// `C_EncryptInit` once the session's card is read: encryption with a
/// public key that may encrypt and has its modulus and exponent.
pub fn c_encrypt_init(st: &mut State, h: CK_SESSION_HANDLE, mech: Option<&CK_MECHANISM>, key: CK_OBJECT_HANDLE) -> (rv: CK_RV)
    requires
        old(st).wf(),
        mech matches Some(m) ==> mechanism_wf(*m),
    ensures
        final(st).wf(),
        match encrypt_init_refusal(*old(st), h, match mech { Some(m) => Some(*m), None => None }, key) {
            Some(e) => rv == e && *final(st) == *old(st),
            None => {
                let i = session_index(*old(st), h)->0;
                let m = *mech->0;
                let (hh, l) = oaep_settings(m)->Ok_0;
                let s = final(st).sessions@[i];
                &&& rv == CKR_OK
                &&& only_session_changed(*old(st), *final(st), i)
                &&& s == Session {
                    encrypt_active: true,
                    encrypt_key: key,
                    encrypt_mech: m.mechanism,
                    encrypt_buf: s.encrypt_buf,
                    encrypt_cipher: None,
                    encrypt_oaep_hash: hh,
                    encrypt_oaep_label: s.encrypt_oaep_label,
                    ..old(st).sessions@[i]
                }
                &&& s.encrypt_buf@.len() == 0 && s.encrypt_oaep_label@ == l
            },
        },
{
    let slot_id = match encrypt_init_target(st, h, mech) {
        Ok(s) => s,
        Err(rv) => return rv,
    };
    let i = match session_of(st, h) {
        Some(i) => i,
        None => return CKR_SESSION_HANDLE_INVALID,
    };
    let m = match mech {
        Some(m) => m,
        None => return CKR_ARGUMENTS_BAD,
    };
    match key_of(st, slot_id, key) {
        None => return CKR_KEY_HANDLE_INVALID,
        Some(o) => {
            if o.cls != ObjClass::PubKey || !o.can_encrypt || o.modulus.len() == 0 || o.pubexp.len() == 0 {
                return CKR_KEY_HANDLE_INVALID;
            }
        },
    }
    let (oaep_hash, oaep_label) = match oaep_settings_of(m) {
        Ok(v) => v,
        Err(rv) => return rv,
    };
    st.sessions[i].encrypt_active = true;
    st.sessions[i].encrypt_key = key;
    st.sessions[i].encrypt_mech = m.mechanism;
    st.sessions[i].encrypt_buf = Vec::new();
    st.sessions[i].encrypt_cipher = None;
    st.sessions[i].encrypt_oaep_hash = oaep_hash;
    st.sessions[i].encrypt_oaep_label = oaep_label;
    proof {
        lemma_only_session_changed_wf(*old(st), *st, i as int);
    }
    CKR_OK
}

/// `em` encodes `pt` for the mechanism into `k` bytes: a PKCS#1 v1.5
/// encryption block, the data itself for raw RSA, or an OAEP encoding under
/// some seed.
pub open spec fn encodes(mech: CK_MECHANISM_TYPE, hash: CK_MECHANISM_TYPE, label: Seq<u8>, k: nat, pt: Seq<u8>, em: Seq<u8>) -> bool {
    if mech == CKM_RSA_PKCS {
        is_type2_block_of(em, pt, k)
    } else if mech == CKM_RSA_X_509 {
        em == pt
    } else if mech == CKM_RSA_PKCS_OAEP {
        oaep_alg(hash) matches Some(a) && em.len() == k && exists|seed: Seq<u8>| seed.len() == digest_len(a) && em == oaep_encoded(a, label, k, pt, seed)
    } else {
        false
    }
}

/// Why encoding `pt` for the mechanism into `k` bytes is refused whatever
/// the random bytes: an unknown mechanism or OAEP hash, or data too long.
pub open spec fn encode_refusal(mech: CK_MECHANISM_TYPE, hash: CK_MECHANISM_TYPE, k: nat, pt: Seq<u8>) -> Option<CK_RV> {
    if mech == CKM_RSA_PKCS {
        if pt.len() > room11(k) { Some(CKR_DATA_LEN_RANGE) } else { None }
    } else if mech == CKM_RSA_X_509 {
        if pt.len() != k { Some(CKR_DATA_LEN_RANGE) } else { None }
    } else if mech == CKM_RSA_PKCS_OAEP {
        match oaep_alg(hash) {
            None => Some(CKR_MECHANISM_INVALID),
            Some(a) => if pt.len() + 2 * digest_len(a) + 2 > k { Some(CKR_DATA_LEN_RANGE) } else { None },
        }
    } else {
        Some(CKR_MECHANISM_INVALID)
    }
}

/// Encode `pt` for the mechanism into `k` bytes, with fresh random bytes
/// for the PKCS#1 padding or the OAEP seed: the refusals of
/// [`encode_refusal`] whatever the random bytes, otherwise an encoding, or a
/// failure of the random source or of the mask generator.
pub fn encode_for(mech: CK_MECHANISM_TYPE, hash: CK_MECHANISM_TYPE, label: &[u8], k: usize, pt: &[u8]) -> (r: Result<Vec<u8>, CK_RV>)
    requires
        mech == CKM_RSA_PKCS ==> pt@.len() > 0 || k >= 3,
    ensures
        match encode_refusal(mech, hash, k as nat, pt@) {
            Some(e) => r == Err::<Vec<u8>, CK_RV>(e),
            None => match r {
                Ok(em) => encodes(mech, hash, label@, k as nat, pt@, em@),
                Err(e) => mech != CKM_RSA_X_509
                    && (e == CKR_DEVICE_ERROR || (mech == CKM_RSA_PKCS_OAEP && e == CKR_FUNCTION_FAILED)),
            },
        },
        mech == CKM_RSA_X_509 ==> if pt@.len() == k {
            r matches Ok(em) && em@ == pt@
        } else {
            r == Err::<Vec<u8>, CK_RV>(CKR_DATA_LEN_RANGE)
        },
{
    if mech == CKM_RSA_PKCS {
        pkcs1_v15_encrypt_block(k, pt)
    } else if mech == CKM_RSA_X_509 {
        if pt.len() != k {
            return Err(CKR_DATA_LEN_RANGE);
        }
        Ok(bytes_to_vec(pt))
    } else if mech == CKM_RSA_PKCS_OAEP {
        oaep_encode(hash, label, k, pt)
    } else {
        Err(CKR_MECHANISM_INVALID)
    }
}

/// Ciphertext of `pt` under key `o` for the mechanism: the RSA public
/// operation on some encoding of `pt`.
pub open spec fn enciphers(o: TokenObject, mech: CK_MECHANISM_TYPE, hash: CK_MECHANISM_TYPE, label: Seq<u8>, pt: Seq<u8>, c: Seq<u8>) -> bool {
    exists|em: Seq<u8>| encodes(mech, hash, label, o.modulus@.len(), pt, em)
        && rsa_crypt_refusal(o.modulus@, o.pubexp@, em) is None && rsa_crypt_gives(o.modulus@, o.pubexp@, em, c)
}

/// Statuses encrypting `pt` under key `o` can fail with: a refusal of the
/// encoding; otherwise the random source or mask generator failing (never
/// for raw RSA, which draws nothing), or the RSA operation refusing an
/// encoding.
pub open spec fn encrypt_failure(o: TokenObject, mech: CK_MECHANISM_TYPE, hash: CK_MECHANISM_TYPE, label: Seq<u8>, pt: Seq<u8>, rv: CK_RV) -> bool {
    match encode_refusal(mech, hash, o.modulus@.len(), pt) {
        Some(e) => rv == e,
        None => (mech != CKM_RSA_X_509 && (rv == CKR_DEVICE_ERROR || rv == CKR_FUNCTION_FAILED))
            || exists|em: Seq<u8>| encodes(mech, hash, label, o.modulus@.len(), pt, em) && rsa_crypt_refusal(o.modulus@, o.pubexp@, em) == Some(rv),
    }
}

/// Inputs on which encryption is defined: PKCS#1 v1.5 of empty data needs
/// a modulus of at least three bytes (the padding arithmetic would
/// otherwise underflow).
pub open spec fn encrypt_defined(st: State, i: int, pt: Seq<u8>) -> bool {
    let s = st.sessions@[i];
    match key_object(st, s.slot, s.encrypt_key) {
        None => true,
        Some(o) => !(s.encrypt_mech == CKM_RSA_PKCS && pt.len() == 0 && o.modulus@.len() < 3),
    }
}

/// What an encryption step in session `i` may give for plaintext `pt` into
/// room for `out_cap` bytes: the length asked (the kept ciphertext's, or 256);
/// kept ciphertext handed out; otherwise the key's ciphertext handed out, or
/// a failure.
pub open spec fn enc_step_ok(st: State, i: int, pt: Seq<u8>, out_cap: Option<CK_ULONG>, r: (CK_RV, Option<CK_ULONG>, Seq<u8>), keep: Option<Seq<u8>>) -> bool {
    let s = st.sessions@[i];
    let kept = match s.encrypt_cipher { Some(c) => Some(c@), None => None };
    match out_cap {
        None => r == (CKR_OK, Some(match kept { Some(c) => c.len() as CK_ULONG, None => RSA_MODULUS_LEN as CK_ULONG }), Seq::<u8>::empty()) && keep == kept,
        Some(cap) => match kept {
            Some(c) => {
                let e = hand_out(c, cap, st.card@);
                r == (e.0, e.1, e.2) && keep == e.4
            },
            None => match key_object(st, s.slot, s.encrypt_key) {
                None => r == (CKR_KEY_HANDLE_INVALID, None::<CK_ULONG>, Seq::<u8>::empty()) && keep is None,
                Some(o) => if r.0 == CKR_OK || r.0 == CKR_BUFFER_TOO_SMALL {
                    exists|c: Seq<u8>| enciphers(o, s.encrypt_mech, s.encrypt_oaep_hash, s.encrypt_oaep_label@, pt, c) && {
                        let e = hand_out(c, cap, st.card@);
                        r == (e.0, e.1, e.2) && keep == e.4
                    }
                } else {
                    encrypt_failure(o, s.encrypt_mech, s.encrypt_oaep_hash, s.encrypt_oaep_label@, pt, r.0)
                        && r.1 is None && r.2.len() == 0 && keep is None
                },
            },
        },
    }
}

/// The ciphertext a session keeps for a retry.
pub open spec fn kept_cipher(s: Session) -> Option<Seq<u8>> {
    match s.encrypt_cipher {
        Some(c) => Some(c@),
        None => None,
    }
}

/// Encrypt `pt` in session `i` (see [`enc_step_ok`]); the ciphertext kept
/// for a retry is the session's afterwards.
pub fn do_encrypt(st: &mut State, i: usize, pt: &[u8], out_cap: Option<CK_ULONG>) -> (r: (CK_RV, Option<CK_ULONG>, Vec<u8>))
    requires
        old(st).wf(),
        i < old(st).sessions@.len(),
        old(st).sessions@[i as int].in_use,
        encrypt_defined(*old(st), i as int, pt@),
    ensures
        final(st).wf(),
        only_session_changed(*old(st), *final(st), i as int),
        final(st).sessions@[i as int] == (Session { encrypt_cipher: final(st).sessions@[i as int].encrypt_cipher, ..old(st).sessions@[i as int] }),
        enc_step_ok(*old(st), i as int, pt@, out_cap, (r.0, r.1, r.2@), kept_cipher(final(st).sessions@[i as int])),
{
    let cap = match out_cap {
        None => {
            let n = match &st.sessions[i].encrypt_cipher {
                Some(c) => c.len() as CK_ULONG,
                None => RSA_MODULUS_LEN as CK_ULONG,
            };
            return (CKR_OK, Some(n), Vec::new());
        },
        Some(cap) => cap,
    };
    let ghost fresh = st.sessions[i as int].encrypt_cipher is None;
    let ghost mut g_em: Seq<u8> = Seq::empty();
    let cipher = if st.sessions[i].encrypt_cipher.is_some() {
        let kept = st.sessions[i].encrypt_cipher.take();
        match kept {
            Some(c) => c,
            None => Vec::new(),
        }
    } else {
        let slot_id = st.sessions[i].slot;
        let o = match key_of(st, slot_id, st.sessions[i].encrypt_key) {
            None => return (CKR_KEY_HANDLE_INVALID, None, Vec::new()),
            Some(o) => o,
        };
        let ghost go = *o;
        let em = match encode_for(
            st.sessions[i].encrypt_mech,
            st.sessions[i].encrypt_oaep_hash,
            &st.sessions[i].encrypt_oaep_label,
            o.modulus.len(),
            pt,
        ) {
            Ok(em) => em,
            Err(rv) => return (rv, None, Vec::new()),
        };
        proof {
            g_em = em@;
        }
        match rsa_public_crypt(&o.modulus, &o.pubexp, &em) {
            Ok(c) => c,
            Err(rv) => return (rv, None, Vec::new()),
        }
    };
    let ghost c_seq = cipher@;
    let (out, keep) = hand_out_exec(cipher, cap);
    st.sessions[i].encrypt_cipher = keep;
    proof {
        lemma_only_session_changed_wf(*old(st), *st, i as int);
        let s0 = old(st).sessions@[i as int];
        if fresh {
            let o = key_object(*old(st), s0.slot, s0.encrypt_key)->0;
            assert(enciphers(o, s0.encrypt_mech, s0.encrypt_oaep_hash, s0.encrypt_oaep_label@, pt@, c_seq));
        }
    }
    out
}

/// The encrypting session of handle `h`, if the handle is valid and an
/// encryption is active in it.
pub open spec fn encrypting_session(st: State, h: CK_SESSION_HANDLE) -> Option<int> {
    match session_index(st, h) {
        Some(i) => if st.sessions@[i].encrypt_active { Some(i) } else { None },
        None => None,
    }
}

/// The module after an encryption step in session `i` gave `r` for
/// plaintext `pt`, when the caller gave a buffer (`has_buf`): unless the
/// buffer was too small the operation ends with its buffer emptied and no
/// ciphertext kept.
pub open spec fn enc_ended(before: State, after: State, i: int, pt: Seq<u8>, out_cap: Option<CK_ULONG>, r: (CK_RV, Option<CK_ULONG>, Seq<u8>)) -> bool {
    &&& only_session_changed(before, after, i)
    &&& if out_cap is Some && r.0 != CKR_BUFFER_TOO_SMALL {
        &&& exists|keep: Option<Seq<u8>>| enc_step_ok(before, i, pt, out_cap, r, keep)
        &&& after.sessions@[i] == Session {
            encrypt_active: false,
            encrypt_buf: after.sessions@[i].encrypt_buf,
            encrypt_cipher: None,
            ..before.sessions@[i]
        }
        &&& after.sessions@[i].encrypt_buf@.len() == 0
    } else {
        &&& enc_step_ok(before, i, pt, out_cap, r, kept_cipher(after.sessions@[i]))
        &&& after.sessions@[i] == Session { encrypt_cipher: after.sessions@[i].encrypt_cipher, ..before.sessions@[i] }
    }
}

fn end_encrypt(st: &mut State, i: usize, rv: CK_RV, has_buf: bool)
    requires
        old(st).wf(),
        i < old(st).sessions@.len(),
    ensures
        final(st).wf(),
        has_buf && rv != CKR_BUFFER_TOO_SMALL ==> {
            &&& only_session_changed(*old(st), *final(st), i as int)
            &&& final(st).sessions@[i as int] == Session {
                encrypt_active: false,
                encrypt_buf: final(st).sessions@[i as int].encrypt_buf,
                encrypt_cipher: if rv != CKR_OK { None } else { old(st).sessions@[i as int].encrypt_cipher },
                ..old(st).sessions@[i as int]
            }
            &&& final(st).sessions@[i as int].encrypt_buf@.len() == 0
        },
        !(has_buf && rv != CKR_BUFFER_TOO_SMALL) ==> *final(st) == *old(st),
{
    if has_buf && rv != CKR_BUFFER_TOO_SMALL {
        st.sessions[i].encrypt_active = false;
        st.sessions[i].encrypt_buf = Vec::new();
        if rv != CKR_OK {
            st.sessions[i].encrypt_cipher = None;
        }
        proof {
            lemma_only_session_changed_wf(*old(st), *st, i as int);
        }
    }
}

/// `C_Encrypt`: encrypt `data` (`None` where the caller gave a length but
/// no bytes) into room for `out_cap` bytes (`None` where only the length is
/// asked); `has_len` tells whether the caller gave a place for the length.
pub fn c_encrypt(st: &mut State, h: CK_SESSION_HANDLE, data: Option<&[u8]>, out_cap: Option<CK_ULONG>, has_len: bool)
    -> (r: (CK_RV, Option<CK_ULONG>, Vec<u8>))
    requires
        old(st).wf(),
        encrypting_session(*old(st), h) matches Some(i) ==> (data matches Some(d) ==> encrypt_defined(*old(st), i, d@)),
    ensures
        final(st).wf(),
        match encrypting_session(*old(st), h) {
            None => r.0 == CKR_OPERATION_NOT_INITIALIZED && r.1 is None && r.2@.len() == 0 && *final(st) == *old(st),
            Some(i) => if !has_len || data is None {
                r.0 == CKR_ARGUMENTS_BAD && r.1 is None && r.2@.len() == 0 && *final(st) == *old(st)
            } else {
                enc_ended(*old(st), *final(st), i, data->0@, out_cap, (r.0, r.1, r.2@))
            },
        },
{
    let i = match session_of(st, h) {
        Some(i) => i,
        None => return (CKR_OPERATION_NOT_INITIALIZED, None, Vec::new()),
    };
    if !st.sessions[i].encrypt_active {
        return (CKR_OPERATION_NOT_INITIALIZED, None, Vec::new());
    }
    if !has_len {
        return (CKR_ARGUMENTS_BAD, None, Vec::new());
    }
    let d = match data {
        None => return (CKR_ARGUMENTS_BAD, None, Vec::new()),
        Some(d) => d,
    };
    let out = do_encrypt(st, i, d, out_cap);
    let ghost mid = *st;
    end_encrypt(st, i, out.0, out_cap.is_some());
    proof {
        if out_cap is Some && out.0 != CKR_BUFFER_TOO_SMALL {
            let keep = kept_cipher(mid.sessions@[i as int]);
            assert(enc_step_ok(*old(st), i as int, d@, out_cap, (out.0, out.1, out.2@), keep));
            if out.0 == CKR_OK {
                assert(keep is None);
            }
        }
    }
    out
}

/// `C_EncryptUpdate`: `part` (`None` where the caller gave a length but no
/// bytes) joins the plaintext, up to 256 bytes in all; nothing is encrypted
/// before the final call.
pub fn c_encrypt_update(st: &mut State, h: CK_SESSION_HANDLE, part: Option<&[u8]>, has_len: bool) -> (rv: CK_RV)
    requires
        old(st).wf(),
    ensures
        final(st).wf(),
        match encrypting_session(*old(st), h) {
            None => rv == CKR_OPERATION_NOT_INITIALIZED && *final(st) == *old(st),
            Some(i) => if !has_len || part is None {
                rv == CKR_ARGUMENTS_BAD && *final(st) == *old(st)
            } else if old(st).sessions@[i].encrypt_buf@.len() + part->0@.len() > RSA_MODULUS_LEN {
                rv == CKR_DATA_LEN_RANGE && *final(st) == *old(st)
            } else {
                &&& rv == CKR_OK
                &&& only_session_changed(*old(st), *final(st), i)
                &&& final(st).sessions@[i] == Session { encrypt_buf: final(st).sessions@[i].encrypt_buf, ..old(st).sessions@[i] }
                &&& final(st).sessions@[i].encrypt_buf@ == old(st).sessions@[i].encrypt_buf@ + part->0@
            },
        },
{
    let i = match session_of(st, h) {
        Some(i) => i,
        None => return CKR_OPERATION_NOT_INITIALIZED,
    };
    if !st.sessions[i].encrypt_active {
        return CKR_OPERATION_NOT_INITIALIZED;
    }
    if !has_len {
        return CKR_ARGUMENTS_BAD;
    }
    let p = match part {
        None => return CKR_ARGUMENTS_BAD,
        Some(p) => p,
    };
    if p.len() > RSA_MODULUS_LEN || st.sessions[i].encrypt_buf.len() > RSA_MODULUS_LEN - p.len() {
        return CKR_DATA_LEN_RANGE;
    }
    st.sessions[i].encrypt_buf.extend_from_slice(p);
    proof {
        lemma_only_session_changed_wf(*old(st), *st, i as int);
    }
    CKR_OK
}

/// `C_EncryptFinal`: encrypt the plaintext gathered by [`c_encrypt_update`].
pub fn c_encrypt_final(st: &mut State, h: CK_SESSION_HANDLE, out_cap: Option<CK_ULONG>, has_len: bool)
    -> (r: (CK_RV, Option<CK_ULONG>, Vec<u8>))
    requires
        old(st).wf(),
        encrypting_session(*old(st), h) matches Some(i) ==> encrypt_defined(*old(st), i, old(st).sessions@[i].encrypt_buf@),
    ensures
        final(st).wf(),
        match encrypting_session(*old(st), h) {
            None => r.0 == CKR_OPERATION_NOT_INITIALIZED && r.1 is None && r.2@.len() == 0 && *final(st) == *old(st),
            Some(i) => if !has_len {
                r.0 == CKR_ARGUMENTS_BAD && r.1 is None && r.2@.len() == 0 && *final(st) == *old(st)
            } else {
                enc_ended(*old(st), *final(st), i, old(st).sessions@[i].encrypt_buf@, out_cap, (r.0, r.1, r.2@))
            },
        },
{
    let i = match session_of(st, h) {
        Some(i) => i,
        None => return (CKR_OPERATION_NOT_INITIALIZED, None, Vec::new()),
    };
    if !st.sessions[i].encrypt_active {
        return (CKR_OPERATION_NOT_INITIALIZED, None, Vec::new());
    }
    if !has_len {
        return (CKR_ARGUMENTS_BAD, None, Vec::new());
    }
    let plain = bytes_to_vec(&st.sessions[i].encrypt_buf);
    let out = do_encrypt(st, i, &plain, out_cap);
    let ghost mid = *st;
    end_encrypt(st, i, out.0, out_cap.is_some());
    proof {
        if out_cap is Some && out.0 != CKR_BUFFER_TOO_SMALL {
            let keep = kept_cipher(mid.sessions@[i as int]);
            assert(enc_step_ok(*old(st), i as int, plain@, out_cap, (out.0, out.1, out.2@), keep));
            if out.0 == CKR_OK {
                assert(keep is None);
            }
        }
    }
    out
}

/// `C_GenerateRandom`: `len` random bytes, when the caller gave a buffer.
pub fn c_generate_random(st: &State, h: CK_SESSION_HANDLE, len: usize, has_buf: bool) -> (r: (CK_RV, Vec<u8>))
    ensures
        session_index(*st, h) is None ==> r.0 == CKR_SESSION_HANDLE_INVALID,
        session_index(*st, h) is Some ==> {
            if len == 0 {
                r.0 == CKR_OK && r.1@.len() == 0
            } else if !has_buf {
                r.0 == CKR_ARGUMENTS_BAD
            } else {
                (r.0 == CKR_OK && r.1@.len() == len) || r.0 == CKR_DEVICE_ERROR
            }
        },
{
    if session_of(st, h).is_none() {
        return (CKR_SESSION_HANDLE_INVALID, Vec::new());
    }
    if len == 0 {
        return (CKR_OK, Vec::new());
    }
    if !has_buf {
        return (CKR_ARGUMENTS_BAD, Vec::new());
    }
    let mut out: Vec<u8> = Vec::new();
    while out.len() < len
        invariant
            out@.len() <= len,
        decreases len - out@.len(),
    {
        out.push(0);
    }
    if crypto::fill_random(out.as_mut_slice()) {
        (CKR_OK, out)
    } else {
        (CKR_DEVICE_ERROR, Vec::new())
    }
}

/// Decryption undoes encryption's padding: every RSA-OAEP encoding the
/// module can produce for a message decodes, under the same hash and label,
/// to that message (where the mask generator covers the block).
pub proof fn lemma_oaep_encoding_decodes(hash: CK_MECHANISM_TYPE, label: Seq<u8>, k: nat, pt: Seq<u8>, em: Seq<u8>)
    requires
        encodes(CKM_RSA_PKCS_OAEP, hash, label, k, pt, em),
        oaep_alg(hash) matches Some(a) && mgf1_fits(a, (k - 1 - digest_len(a)) as nat),
        pt.len() + 2 * digest_len(oaep_alg(hash)->0) + 2 <= k,
    ensures
        oaep_decode_result(hash, label, em) == Ok::<Seq<u8>, CK_RV>(pt),
{
    let a = oaep_alg(hash)->0;
    let seed = choose|seed: Seq<u8>| seed.len() == digest_len(a) && em == oaep_encoded(a, label, k, pt, seed);
    pad::lemma_oaep_roundtrip(a, label, k, pt, seed);
    assert(em[0] == 0);
}

/// A search template holding an identifier admits an object only when that
/// identifier is the object's byte for byte, and a template of that
/// identifier alone admits exactly the objects with it.
pub proof fn lemma_id_template_exact(o: ObjModel, t: Seq<AttrView>, k: int, v: Seq<u8>, len: CK_ULONG)
    ensures
        0 <= k < t.len() && t[k].type_ == CKA_ID && t[k].value == Some(v) && template_admits(o, t)
            ==> v.len() == o.id.len() && forall|j: int| 0 <= j < v.len() ==> #[trigger] v[j] == o.id[j],
        template_admits(o, seq![(AttrView { type_: CKA_ID, value: Some(v), len })])
            <==> (v.len() == o.id.len() && forall|j: int| 0 <= j < v.len() ==> #[trigger] v[j] == o.id[j]),
{
    if 0 <= k < t.len() && t[k].type_ == CKA_ID && t[k].value == Some(v) && template_admits(o, t) {
        assert(attr_admits(o, t[k]));
    }
    let one = seq![(AttrView { type_: CKA_ID, value: Some(v), len })];
    if template_admits(o, one) {
        assert(attr_admits(o, one[0]));
    }
    if v.len() == o.id.len() && forall|j: int| 0 <= j < v.len() ==> #[trigger] v[j] == o.id[j] {
        assert(v =~= o.id);
        assert forall|i: int| 0 <= i < one.len() implies attr_admits(o, #[trigger] one[i]) by {
            assert(one[i] == one[0]);
        }
    }
}

/// `CKA_SIGN` reads as the one byte `CK_TRUE` exactly for objects that can
/// sign and `CK_FALSE` otherwise; `CKA_DECRYPT` likewise for decryption.
pub proof fn lemma_capability_attributes(o: ObjModel)
    ensures
        attr_value(o, CKA_SIGN) == Some(seq![if o.can_sign { 1u8 } else { 0u8 }]),
        attr_value(o, CKA_DECRYPT) == Some(seq![if o.can_decrypt { 1u8 } else { 0u8 }]),
{
    assert(attr_value(o, CKA_SIGN) =~= Some(seq![if o.can_sign { 1u8 } else { 0u8 }]));
    assert(attr_value(o, CKA_DECRYPT) =~= Some(seq![if o.can_decrypt { 1u8 } else { 0u8 }]));
}

/// A key whose capabilities come from a keyUsageFlags mask reads `CKA_SIGN`
/// true exactly when the mask has sign or signRecover, and `CKA_DECRYPT`
/// true exactly when it has decrypt or unwrap.
pub proof fn lemma_capability_attributes_from_usage(o: TokenObject, p: TokenObject, usage: u32)
    requires
        usage_applied(o, p, usage),
    ensures
        attr_value(p@, CKA_SIGN) == Some(seq![if usage & (USAGE_SIGN | USAGE_SIGN_RECOVER) != 0 { 1u8 } else { 0u8 }]),
        attr_value(p@, CKA_DECRYPT) == Some(seq![if usage & (USAGE_DECRYPT | USAGE_UNWRAP) != 0 { 1u8 } else { 0u8 }]),
{
    lemma_capability_attributes(p@);
}

/// The bytes the card is asked to sign: for a hash-and-sign mechanism the
/// DigestInfo of the data's hash (algorithm prefix, then the digest), for
/// `CKM_RSA_PKCS` the data itself. With the key found and room for a
/// signature, the card pads them into a PKCS#1 v1.5 type-1 block and signs,
/// and the signature or failure it answers is the outcome.
pub proof fn lemma_sign_card_payload(
    st: State,
    i: int,
    data: Seq<u8>,
    cap: CK_ULONG,
    random: Option<Seq<u8>>,
    log: Seq<Option<Response>>,
    at: int,
)
    requires
        0 <= i < st.sessions@.len(),
        is_hash_rsa_mech(st.sessions@[i].sign_mech) || st.sessions@[i].sign_mech == CKM_RSA_PKCS,
        key_object(st, st.sessions@[i].slot, st.sessions@[i].sign_key) is Some,
        cap >= RSA_MODULUS_LEN,
    ensures
        ({
            let s = st.sessions@[i];
            let o = key_object(st, s.slot, s.sign_key)->0;
            let d = if s.sign_mech == CKM_MD5_RSA_PKCS {
                md5_prefix() + md5_value(data)
            } else if s.sign_mech == CKM_SHA1_RSA_PKCS {
                sha1_prefix() + sha1_value(data)
            } else if s.sign_mech == CKM_SHA256_RSA_PKCS {
                sha256_prefix() + sha256_value(data)
            } else if s.sign_mech == CKM_SHA384_RSA_PKCS {
                sha384_prefix() + sha384_value(data)
            } else if s.sign_mech == CKM_SHA512_RSA_PKCS {
                sha512_prefix() + sha512_value(data)
            } else {
                data
            };
            match spec_sign(st.card@, o.key_ref as u8, d, 512, random, log, at) {
                SFlow::Transmit(c) => spec_do_sign(st, i, data, Some(cap), random, log, at) == SFlow::<OpOutcome>::Transmit(c),
                SFlow::Done(v, n) => spec_do_sign(st, i, data, Some(cap), random, log, at) == SFlow::Done(
                    match v.0 {
                        Ok(sig) => (CKR_OK, Some(sig.len() as CK_ULONG), sig, v.1),
                        Err(_) => (CKR_FUNCTION_FAILED, None, Seq::empty(), v.1),
                    },
                    n,
                ),
            }
        }),
{
}

/// RSA-OAEP decryption hands out the message the card's raw block encodes:
/// when the private operation answers an EME-OAEP encoding of `pt` under
/// the session's hash and label, `C_Decrypt` returns `pt`, or its length
/// with the plaintext kept when the buffer is too small.
pub proof fn lemma_oaep_decrypt_gives_message(
    st: State,
    i: int,
    cipher: Seq<u8>,
    cap: CK_ULONG,
    random: Option<Seq<u8>>,
    log: Seq<Option<Response>>,
    at: int,
    pt: Seq<u8>,
    seed: Seq<u8>,
    card: ConnectionModel,
    n: int,
)
    requires
        0 <= i < st.sessions@.len(),
        st.sessions@[i].decrypt_mech == CKM_RSA_PKCS_OAEP,
        st.sessions@[i].decrypt_plain is None,
        key_object(st, st.sessions@[i].slot, st.sessions@[i].decrypt_key) is Some,
        oaep_alg(st.sessions@[i].decrypt_oaep_hash) is Some,
        seed.len() == digest_len(oaep_alg(st.sessions@[i].decrypt_oaep_hash)->0),
        pt.len() + 2 * digest_len(oaep_alg(st.sessions@[i].decrypt_oaep_hash)->0) + 2 <= RSA_MODULUS_LEN,
        spec_rsa_private_op(
            st.card@,
            key_object(st, st.sessions@[i].slot, st.sessions@[i].decrypt_key)->0.key_ref as u8,
            cipher,
            RSA_MODULUS_LEN as int,
            random,
            log,
            at,
        ) == SFlow::Done(
            (
                Ok::<Seq<u8>, ()>(oaep_encoded(
                    oaep_alg(st.sessions@[i].decrypt_oaep_hash)->0,
                    st.sessions@[i].decrypt_oaep_label@,
                    RSA_MODULUS_LEN as nat,
                    pt,
                    seed,
                )),
                card,
            ),
            n,
        ),
    ensures
        spec_do_decrypt(st, i, cipher, Some(cap), random, log, at) == SFlow::Done(
            if cap < pt.len() {
                (CKR_BUFFER_TOO_SMALL, Some(pt.len() as CK_ULONG), Seq::<u8>::empty(), card, Some(pt))
            } else {
                (CKR_OK, Some(pt.len() as CK_ULONG), pt, card, None)
            },
            n,
        ),
{
    let s = st.sessions@[i];
    let a = oaep_alg(s.decrypt_oaep_hash)->0;
    let k = RSA_MODULUS_LEN as nat;
    let em = oaep_encoded(a, s.decrypt_oaep_label@, k, pt, seed);
    pad::lemma_oaep_roundtrip(a, s.decrypt_oaep_label@, k, pt, seed);
    lemma_oaep_encoded_len(a, s.decrypt_oaep_label@, k, pt, seed);
    assert(em[0] == 0);
    assert(mgf1_fits(a, (em.len() - 1 - digest_len(a)) as nat));
    assert(oaep_decode_result(s.decrypt_oaep_hash, s.decrypt_oaep_label@, em) == Ok::<Seq<u8>, CK_RV>(pt));
}

/// Every PKCS#1 v1.5 encryption block the module builds around a message,
/// for a 256-byte key, unpads to that message.
pub proof fn lemma_type2_block_unpads(em: Seq<u8>, pt: Seq<u8>)
    requires
        is_type2_block_of(em, pt, RSA_MODULUS_LEN as nat),
        pt.len() <= room11(RSA_MODULUS_LEN as nat),
    ensures
        type2_message(em) == Some(pt),
{
    let ps = em.subrange(2, RSA_MODULUS_LEN - pt.len() - 1);
    assert forall|j: int| 0 <= j < ps.len() implies ps[j] != 0 by {
        assert(ps[j] == em[j + 2]);
    }
    lemma_type2_roundtrip(pt, ps);
}

} // verus!
