//! Cryptoki (PKCS#11 v2.40) types and constants used by the module: plain
//! values, with the caller's buffers held as byte vectors.

#![allow(non_camel_case_types, non_snake_case)]

use vstd::prelude::*;
use vstd::string::StringSliceAdditionalSpecFns;

verus! {

pub type CK_BYTE = u8;
pub type CK_CHAR = u8;
pub type CK_UTF8CHAR = u8;
pub type CK_BBOOL = u8;
pub type CK_ULONG = u64;
pub type CK_LONG = i64;
pub type CK_FLAGS = CK_ULONG;
pub type CK_RV = CK_ULONG;
pub type CK_SLOT_ID = CK_ULONG;
pub type CK_SESSION_HANDLE = CK_ULONG;
pub type CK_OBJECT_HANDLE = CK_ULONG;
pub type CK_MECHANISM_TYPE = CK_ULONG;
pub type CK_ATTRIBUTE_TYPE = CK_ULONG;
pub type CK_USER_TYPE = CK_ULONG;
pub type CK_STATE = CK_ULONG;
pub type CK_KEY_TYPE = CK_ULONG;
pub type CK_CERTIFICATE_TYPE = CK_ULONG;

pub const CK_TRUE: CK_BBOOL = 1;
pub const CK_FALSE: CK_BBOOL = 0;

pub const CKR_OK: CK_RV = 0x0000_0000;
pub const CKR_ARGUMENTS_BAD: CK_RV = 0x0000_0007;
pub const CKR_ATTRIBUTE_TYPE_INVALID: CK_RV = 0x0000_0012;
pub const CKR_DATA_LEN_RANGE: CK_RV = 0x0000_0021;
pub const CKR_DEVICE_ERROR: CK_RV = 0x0000_0030;
pub const CKR_ENCRYPTED_DATA_INVALID: CK_RV = 0x0000_0040;
pub const CKR_FUNCTION_FAILED: CK_RV = 0x0000_0006;
pub const CKR_FUNCTION_NOT_SUPPORTED: CK_RV = 0x0000_0054;
pub const CKR_KEY_HANDLE_INVALID: CK_RV = 0x0000_0060;
pub const CKR_KEY_FUNCTION_NOT_PERMITTED: CK_RV = 0x0000_0068;
pub const CKR_MECHANISM_INVALID: CK_RV = 0x0000_0070;
pub const CKR_OBJECT_HANDLE_INVALID: CK_RV = 0x0000_0082;
pub const CKR_OPERATION_NOT_INITIALIZED: CK_RV = 0x0000_0091;
pub const CKR_PIN_INCORRECT: CK_RV = 0x0000_00A0;
pub const CKR_PIN_LOCKED: CK_RV = 0x0000_00A4;
pub const CKR_SESSION_COUNT: CK_RV = 0x0000_00B1;
pub const CKR_SESSION_HANDLE_INVALID: CK_RV = 0x0000_00B3;
pub const CKR_SESSION_PARALLEL_NOT_SUPPORTED: CK_RV = 0x0000_00B4;
pub const CKR_SIGNATURE_INVALID: CK_RV = 0x0000_00C0;
pub const CKR_SIGNATURE_LEN_RANGE: CK_RV = 0x0000_00C1;
pub const CKR_SLOT_ID_INVALID: CK_RV = 0x0000_0003;
pub const CKR_TOKEN_NOT_PRESENT: CK_RV = 0x0000_00E0;
pub const CKR_USER_ALREADY_LOGGED_IN: CK_RV = 0x0000_0100;
pub const CKR_USER_NOT_LOGGED_IN: CK_RV = 0x0000_0101;
pub const CKR_USER_TYPE_INVALID: CK_RV = 0x0000_0103;
pub const CKR_CRYPTOKI_NOT_INITIALIZED: CK_RV = 0x0000_0190;
pub const CKR_CRYPTOKI_ALREADY_INITIALIZED: CK_RV = 0x0000_0191;
pub const CKR_BUFFER_TOO_SMALL: CK_RV = 0x0000_0150;
pub const CK_UNAVAILABLE_INFORMATION: CK_ULONG = 0xFFFF_FFFF_FFFF_FFFF;

pub const CKF_TOKEN_PRESENT: CK_FLAGS = 0x0000_0001;
pub const CKF_REMOVABLE_DEVICE: CK_FLAGS = 0x0000_0002;
pub const CKF_HW_SLOT: CK_FLAGS = 0x0000_0004;
pub const CKF_RNG: CK_FLAGS = 0x0000_0001;
pub const CKF_LOGIN_REQUIRED: CK_FLAGS = 0x0000_0004;
pub const CKF_USER_PIN_INITIALIZED: CK_FLAGS = 0x0000_0008;
pub const CKF_TOKEN_INITIALIZED: CK_FLAGS = 0x0000_0400;
pub const CKF_SERIAL_SESSION: CK_FLAGS = 0x0000_0004;
pub const CKF_RW_SESSION: CK_FLAGS = 0x0000_0002;
pub const CKF_HW: CK_FLAGS = 0x0000_0001;
pub const CKF_ENCRYPT: CK_FLAGS = 0x0000_0100;
pub const CKF_DECRYPT: CK_FLAGS = 0x0000_0200;
pub const CKF_DIGEST: CK_FLAGS = 0x0000_0400;
pub const CKF_SIGN: CK_FLAGS = 0x0000_0800;
pub const CKF_VERIFY: CK_FLAGS = 0x0000_2000;

pub const CKU_USER: CK_USER_TYPE = 1;

pub const CKS_RO_PUBLIC_SESSION: CK_STATE = 0;
pub const CKS_RO_USER_FUNCTIONS: CK_STATE = 1;
pub const CKS_RW_PUBLIC_SESSION: CK_STATE = 2;
pub const CKS_RW_USER_FUNCTIONS: CK_STATE = 3;

pub const CKM_RSA_PKCS: CK_MECHANISM_TYPE = 0x0000_0001;
pub const CKM_RSA_X_509: CK_MECHANISM_TYPE = 0x0000_0003;
pub const CKM_MD5_RSA_PKCS: CK_MECHANISM_TYPE = 0x0000_0005;
pub const CKM_SHA1_RSA_PKCS: CK_MECHANISM_TYPE = 0x0000_0006;
pub const CKM_RSA_PKCS_OAEP: CK_MECHANISM_TYPE = 0x0000_0009;
pub const CKM_SHA256_RSA_PKCS: CK_MECHANISM_TYPE = 0x0000_0040;
pub const CKM_SHA384_RSA_PKCS: CK_MECHANISM_TYPE = 0x0000_0041;
pub const CKM_SHA512_RSA_PKCS: CK_MECHANISM_TYPE = 0x0000_0042;
pub const CKM_MD5: CK_MECHANISM_TYPE = 0x0000_0210;
pub const CKM_SHA_1: CK_MECHANISM_TYPE = 0x0000_0220;
pub const CKM_SHA256: CK_MECHANISM_TYPE = 0x0000_0250;
pub const CKM_SHA384: CK_MECHANISM_TYPE = 0x0000_0260;
pub const CKM_SHA512: CK_MECHANISM_TYPE = 0x0000_0270;

pub const CKG_MGF1_SHA1: CK_ULONG = 0x0000_0001;
pub const CKG_MGF1_SHA256: CK_ULONG = 0x0000_0002;
pub const CKG_MGF1_SHA384: CK_ULONG = 0x0000_0003;
pub const CKG_MGF1_SHA512: CK_ULONG = 0x0000_0004;
pub const CKZ_DATA_SPECIFIED: CK_ULONG = 0x0000_0001;

pub const CKA_CLASS: CK_ATTRIBUTE_TYPE = 0x0000_0000;
pub const CKA_TOKEN: CK_ATTRIBUTE_TYPE = 0x0000_0001;
pub const CKA_PRIVATE: CK_ATTRIBUTE_TYPE = 0x0000_0002;
pub const CKA_LABEL: CK_ATTRIBUTE_TYPE = 0x0000_0003;
pub const CKA_APPLICATION: CK_ATTRIBUTE_TYPE = 0x0000_0010;
pub const CKA_VALUE: CK_ATTRIBUTE_TYPE = 0x0000_0011;
pub const CKA_OBJECT_ID: CK_ATTRIBUTE_TYPE = 0x0000_0012;
pub const CKA_CERTIFICATE_TYPE: CK_ATTRIBUTE_TYPE = 0x0000_0080;
pub const CKA_ISSUER: CK_ATTRIBUTE_TYPE = 0x0000_0081;
pub const CKA_SERIAL_NUMBER: CK_ATTRIBUTE_TYPE = 0x0000_0082;
pub const CKA_KEY_TYPE: CK_ATTRIBUTE_TYPE = 0x0000_0100;
pub const CKA_SUBJECT: CK_ATTRIBUTE_TYPE = 0x0000_0101;
pub const CKA_ID: CK_ATTRIBUTE_TYPE = 0x0000_0102;
pub const CKA_SENSITIVE: CK_ATTRIBUTE_TYPE = 0x0000_0103;
pub const CKA_ENCRYPT: CK_ATTRIBUTE_TYPE = 0x0000_0104;
pub const CKA_DECRYPT: CK_ATTRIBUTE_TYPE = 0x0000_0105;
pub const CKA_WRAP: CK_ATTRIBUTE_TYPE = 0x0000_0106;
pub const CKA_UNWRAP: CK_ATTRIBUTE_TYPE = 0x0000_0107;
pub const CKA_SIGN: CK_ATTRIBUTE_TYPE = 0x0000_0108;
pub const CKA_SIGN_RECOVER: CK_ATTRIBUTE_TYPE = 0x0000_0109;
pub const CKA_VERIFY: CK_ATTRIBUTE_TYPE = 0x0000_010A;
pub const CKA_VERIFY_RECOVER: CK_ATTRIBUTE_TYPE = 0x0000_010B;
pub const CKA_DERIVE: CK_ATTRIBUTE_TYPE = 0x0000_010C;
pub const CKA_MODULUS: CK_ATTRIBUTE_TYPE = 0x0000_0120;
pub const CKA_MODULUS_BITS: CK_ATTRIBUTE_TYPE = 0x0000_0121;
pub const CKA_PUBLIC_EXPONENT: CK_ATTRIBUTE_TYPE = 0x0000_0122;
pub const CKA_EXTRACTABLE: CK_ATTRIBUTE_TYPE = 0x0000_0162;
pub const CKA_LOCAL: CK_ATTRIBUTE_TYPE = 0x0000_0163;
pub const CKA_NEVER_EXTRACTABLE: CK_ATTRIBUTE_TYPE = 0x0000_0164;
pub const CKA_ALWAYS_SENSITIVE: CK_ATTRIBUTE_TYPE = 0x0000_0165;
pub const CKA_MODIFIABLE: CK_ATTRIBUTE_TYPE = 0x0000_0170;
pub const CKA_ALWAYS_AUTHENTICATE: CK_ATTRIBUTE_TYPE = 0x0000_0202;

pub const CKO_DATA: CK_ULONG = 0x0000_0000;
pub const CKO_CERTIFICATE: CK_ULONG = 0x0000_0001;
pub const CKO_PUBLIC_KEY: CK_ULONG = 0x0000_0002;
pub const CKO_PRIVATE_KEY: CK_ULONG = 0x0000_0003;

pub const CKK_RSA: CK_KEY_TYPE = 0x0000_0000;
pub const CKC_X_509: CK_CERTIFICATE_TYPE = 0x0000_0000;

/// Size in bytes of the C layout of `CK_RSA_PKCS_OAEP_PARAMS`: four
/// `CK_ULONG` fields and a pointer, aligned to eight bytes.
pub const OAEP_PARAMS_SIZE: CK_ULONG = 40;

#[derive(Clone, Copy, Default)]
pub struct CK_VERSION {
    pub major: CK_BYTE,
    pub minor: CK_BYTE,
}

#[derive(Clone, Copy)]
pub struct CK_INFO {
    pub cryptokiVersion: CK_VERSION,
    pub manufacturerID: [CK_UTF8CHAR; 32],
    pub flags: CK_FLAGS,
    pub libraryDescription: [CK_UTF8CHAR; 32],
    pub libraryVersion: CK_VERSION,
}

#[derive(Clone, Copy)]
pub struct CK_SLOT_INFO {
    pub slotDescription: [CK_UTF8CHAR; 64],
    pub manufacturerID: [CK_UTF8CHAR; 32],
    pub flags: CK_FLAGS,
    pub hardwareVersion: CK_VERSION,
    pub firmwareVersion: CK_VERSION,
}

#[derive(Clone, Copy)]
pub struct CK_TOKEN_INFO {
    pub label: [CK_UTF8CHAR; 32],
    pub manufacturerID: [CK_UTF8CHAR; 32],
    pub model: [CK_UTF8CHAR; 16],
    pub serialNumber: [CK_UTF8CHAR; 16],
    pub flags: CK_FLAGS,
    pub ulMaxSessionCount: CK_ULONG,
    pub ulSessionCount: CK_ULONG,
    pub ulMaxRwSessionCount: CK_ULONG,
    pub ulRwSessionCount: CK_ULONG,
    pub ulMaxPinLen: CK_ULONG,
    pub ulMinPinLen: CK_ULONG,
    pub ulTotalPublicMemory: CK_ULONG,
    pub ulFreePublicMemory: CK_ULONG,
    pub ulTotalPrivateMemory: CK_ULONG,
    pub ulFreePrivateMemory: CK_ULONG,
    pub hardwareVersion: CK_VERSION,
    pub firmwareVersion: CK_VERSION,
    pub utcTime: [CK_CHAR; 16],
}

#[derive(Clone, Copy)]
pub struct CK_SESSION_INFO {
    pub slotID: CK_SLOT_ID,
    pub state: CK_STATE,
    pub flags: CK_FLAGS,
    pub ulDeviceError: CK_ULONG,
}

/// An attribute of a template. `pValue` is `None` where the caller passed
/// no buffer; otherwise it holds the buffer's bytes (the `ulValueLen` bytes
/// a search template matches against, or, after a value query, the bytes
/// written into the caller's buffer).
pub struct CK_ATTRIBUTE {
    pub type_: CK_ATTRIBUTE_TYPE,
    pub pValue: Option<Vec<u8>>,
    pub ulValueLen: CK_ULONG,
}

/// What an attribute of a template holds.
pub struct AttrView {
    pub type_: CK_ATTRIBUTE_TYPE,
    pub value: Option<Seq<u8>>,
    pub len: CK_ULONG,
}

impl View for CK_ATTRIBUTE {
    type V = AttrView;

    open spec fn view(&self) -> AttrView {
        AttrView {
            type_: self.type_,
            value: match self.pValue {
                Some(v) => Some(v@),
                None => None,
            },
            len: self.ulValueLen,
        }
    }
}

/// A buffer, where one is given, holds `ulValueLen` bytes.
pub open spec fn attr_wf(a: AttrView) -> bool {
    a.value matches Some(v) ==> v.len() == a.len
}

/// The views of a template's attributes.
pub open spec fn template_view(t: Seq<CK_ATTRIBUTE>) -> Seq<AttrView> {
    Seq::new(t.len(), |i: int| t[i]@)
}

/// A mechanism. `pParameter` is `None` where the caller passed no
/// parameter; it is read only when `ulParameterLen` is the size of
/// `CK_RSA_PKCS_OAEP_PARAMS`.
pub struct CK_MECHANISM {
    pub mechanism: CK_MECHANISM_TYPE,
    pub pParameter: Option<CK_RSA_PKCS_OAEP_PARAMS>,
    pub ulParameterLen: CK_ULONG,
}

#[derive(Clone, Copy, Default)]
pub struct CK_MECHANISM_INFO {
    pub ulMinKeySize: CK_ULONG,
    pub ulMaxKeySize: CK_ULONG,
    pub flags: CK_FLAGS,
}

/// RSA-OAEP parameters; `pSourceData` holds the `ulSourceDataLen` label
/// bytes, `None` where the caller passed no pointer.
pub struct CK_RSA_PKCS_OAEP_PARAMS {
    pub hashAlg: CK_MECHANISM_TYPE,
    pub mgf: CK_ULONG,
    pub source: CK_ULONG,
    pub pSourceData: Option<Vec<u8>>,
    pub ulSourceDataLen: CK_ULONG,
}

/// `src` written into the fixed-size text field `dst`: its first bytes,
/// blank-padded.
pub open spec fn blank_filled(src: Seq<u8>, n: nat) -> Seq<u8> {
    Seq::new(n, |i: int| if i < src.len() { src[i] } else { 0x20u8 })
}

/// Copy the UTF-8 bytes of `src` into `dst`, cut to its size and padded
/// with blanks.
pub fn fill_blank(dst: &mut [CK_UTF8CHAR], src: &str)
    ensures
        final(dst)@ == blank_filled(src.spec_bytes(), old(dst)@.len()),
{
    let bytes = src.as_bytes();
    let sl = if bytes.len() < dst.len() { bytes.len() } else { dst.len() };
    let mut i: usize = 0;
    while i < dst.len()
        invariant
            i <= dst@.len(),
            dst@.len() == old(dst)@.len(),
            sl <= bytes@.len(),
            sl == if bytes@.len() < dst@.len() { bytes@.len() } else { dst@.len() },
            forall|j: int| 0 <= j < i ==> dst@[j] == blank_filled(bytes@, dst@.len())[j],
        decreases dst@.len() - i,
    {
        dst[i] = if i < sl { bytes[i] } else { 0x20 };
        i += 1;
    }
    assert(dst@ =~= blank_filled(bytes@, dst@.len()));
}

} // verus!
