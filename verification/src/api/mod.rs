//! High-level API for signing and decrypting with a card: request and
//! response types, and the decisions behind each request once the card's
//! token is read (key and certificate selection, PIN verification, the card
//! operation and its padding).

pub mod pad;

use crate::apdu::gen2::cleared_auth;
use crate::apdu::{
    clear_auth_state, flow_matches, decrypt as card_decrypt, rsa_private_op, same_conn, sign as card_sign, spec_decrypt, spec_rsa_private_op,
    spec_sign, spec_verify_pin, then, verify_pin, CardProfile, Connection, ConnectionModel, Flow, PinResult, Response, SFlow,
};
use crate::bytes::{bytes_eq, bytes_to_vec};
use crate::p15::{ObjClass, ObjModel, Token, TokenObject};
use crate::pkcs11::module::hash_rsa_digest_info;
use crate::pkcs11::types::{
    CKM_MD5_RSA_PKCS, CKM_SHA1_RSA_PKCS, CKM_SHA256_RSA_PKCS, CKM_SHA384_RSA_PKCS, CKM_SHA512_RSA_PKCS, CK_MECHANISM_TYPE,
};
use crate::text::{string_from_chars, utf8_text};
use vstd::prelude::*;
use vstd::string::StringSliceAdditionalSpecFns;
use vstd::utf8::{decode_utf8, encode_utf8, valid_utf8};

verus! {

/// Errors from the high-level API.
#[derive(Debug)]
pub enum Error {
    NoReader,
    NoToken,
    InvalidSlot(u64),
    TokenNotRecognized,
    PinIncorrect,
    PinLocked,
    PinError,
    KeyNotFound(String),
    CertNotFound(String),
    SignFailed,
    DecryptFailed,
    UnsupportedMechanism,
    InvalidLength,
    Pcsc(String),
    Internal(String),
}

pub type Result<T> = core::result::Result<T, Error>;

/// Hash algorithm for OAEP.
#[derive(Clone, Copy, Debug, PartialEq, Eq)]
pub enum OaepHash {
    Sha1,
    Sha256,
    Sha384,
    Sha512,
}

impl Default for OaepHash {
    fn default() -> (h: Self)
        ensures
            h == OaepHash::Sha256,
    {
        OaepHash::Sha256
    }
}

/// One bound token (reader with a recognized card).
#[derive(Clone, Debug)]
pub struct TokenInfo {
    /// Index among the PC/SC readers.
    pub slot_id: u64,
    pub reader: String,
    pub label: String,
    pub model: String,
    pub serial: String,
}

/// Certificate on the token.
#[derive(Clone, Debug)]
pub struct Certificate {
    /// PKCS#11 `CKA_ID` (such as `SIGN`, `KEYX`).
    pub id: Vec<u8>,
    /// Suggested label: `cert1` for SIGN, `cert2` for KEYX, `cert3` for SIGN02.
    pub label: String,
    /// X.509 certificate DER.
    pub der: Vec<u8>,
}

/// Hash and padding mode of [`sign`].
#[derive(Clone, Copy, Debug, PartialEq, Eq, Structural)]
pub enum SignMechanism {
    /// `CKM_SHA1_RSA_PKCS`: hash `data`, wrap it in a DigestInfo, PKCS#1 v1.5 sign.
    Sha1RsaPkcs,
    /// `CKM_SHA256_RSA_PKCS` (the default).
    Sha256RsaPkcs,
    /// `CKM_SHA384_RSA_PKCS`.
    Sha384RsaPkcs,
    /// `CKM_SHA512_RSA_PKCS`.
    Sha512RsaPkcs,
    /// `CKM_MD5_RSA_PKCS`.
    Md5RsaPkcs,
    /// `CKM_RSA_PKCS`: `data` is already a DigestInfo (or another payload to pad).
    RsaPkcs,
}

impl Default for SignMechanism {
    fn default() -> (m: Self)
        ensures
            m == SignMechanism::Sha256RsaPkcs,
    {
        SignMechanism::Sha256RsaPkcs
    }
}

/// Padding mode of [`decrypt`].
#[derive(Clone, Debug, PartialEq, Eq)]
pub enum DecryptPadding {
    /// `CKM_RSA_PKCS`: type-2 unpadding.
    RsaPkcs,
    /// `CKM_RSA_PKCS_OAEP`; MGF1 uses the same hash.
    RsaOaep {
        hash: OaepHash,
        /// OAEP label (usually empty).
        label: Vec<u8>,
    },
}

impl Default for DecryptPadding {
    fn default() -> (p: Self)
        ensures
            p is RsaPkcs,
    {
        DecryptPadding::RsaPkcs
    }
}

/// Parameters of [`sign`].
pub struct SignRequest<'a> {
    /// Reader index; `None` for the first usable token.
    pub slot_id: Option<u64>,
    /// User PIN.
    pub pin: &'a str,
    /// Private key `CKA_ID`; `SIGN` when not given.
    pub key_id: Option<&'a [u8]>,
    pub mechanism: SignMechanism,
    /// Bytes to sign (hashed for the hash-and-sign mechanisms).
    pub data: &'a [u8],
    /// Whether to return the matching certificate too.
    pub return_certificate: bool,
}

/// Result of [`sign`].
#[derive(Clone, Debug)]
pub struct SignResponse {
    pub signature: Vec<u8>,
    pub certificate_der: Option<Vec<u8>>,
}

/// Parameters of [`decrypt`].
pub struct DecryptRequest<'a> {
    pub slot_id: Option<u64>,
    pub pin: &'a str,
    /// Private key `CKA_ID`; `KEYX` when not given.
    pub key_id: Option<&'a [u8]>,
    pub padding: DecryptPadding,
    pub ciphertext: &'a [u8],
    pub return_certificate: bool,
}

/// Result of [`decrypt`].
#[derive(Clone, Debug)]
pub struct DecryptResponse {
    pub plaintext: Vec<u8>,
    pub certificate_der: Option<Vec<u8>>,
}

/// Key identifier `SIGN`, the signing key's when none is given.
pub open spec fn default_sign_key_id() -> Seq<u8> {
    seq![0x53u8, 0x49u8, 0x47u8, 0x4Eu8]
}

/// Key identifier `KEYX`, the decryption key's when none is given.
pub open spec fn default_decrypt_key_id() -> Seq<u8> {
    seq![0x4Bu8, 0x45u8, 0x59u8, 0x58u8]
}

/// Key identifier `SIGN02`.
pub open spec fn sign02_key_id() -> Seq<u8> {
    seq![0x53u8, 0x49u8, 0x47u8, 0x4Eu8, 0x30u8, 0x32u8]
}

/// The signing key identifier, `SIGN`.
pub fn sign_key_id_default() -> (id: Vec<u8>)
    ensures
        id@ == default_sign_key_id(),
{
    let id = vec![0x53, 0x49, 0x47, 0x4E];
    assert(id@ =~= default_sign_key_id());
    id
}

/// The decryption key identifier, `KEYX`.
pub fn decrypt_key_id_default() -> (id: Vec<u8>)
    ensures
        id@ == default_decrypt_key_id(),
{
    let id = vec![0x4B, 0x45, 0x59, 0x58];
    assert(id@ =~= default_decrypt_key_id());
    id
}

/// Upper-case hexadecimal digit of `n` (below 16).
pub open spec fn hex_digit(n: u8) -> char {
    if n < 10 { ((48 + n) as u8) as char } else { ((55 + n) as u8) as char }
}

/// Upper-case hexadecimal text of `bytes`, two digits per byte.
pub open spec fn hex_upper(bytes: Seq<u8>) -> Seq<char> {
    Seq::new(2 * bytes.len(), |i: int| if i % 2 == 0 { hex_digit(bytes[i / 2] / 16) } else { hex_digit(bytes[i / 2] % 16) })
}

fn hex_char(n: u8) -> (c: char)
    requires
        n < 16,
    ensures
        c == hex_digit(n),
{
    match n {
        0 => '0',
        1 => '1',
        2 => '2',
        3 => '3',
        4 => '4',
        5 => '5',
        6 => '6',
        7 => '7',
        8 => '8',
        9 => '9',
        10 => 'A',
        11 => 'B',
        12 => 'C',
        13 => 'D',
        14 => 'E',
        _ => 'F',
    }
}

/// Upper-case hexadecimal text of `bytes`.
pub fn encode_upper_simple(bytes: &[u8]) -> (s: String)
    ensures
        s@ == hex_upper(bytes@),
{
    let mut chars: Vec<char> = Vec::new();
    let mut i: usize = 0;
    while i < bytes.len()
        invariant
            i <= bytes@.len(),
            chars@ == hex_upper(bytes@.take(i as int)),
        decreases bytes@.len() - i,
    {
        let b = bytes[i];
        chars.push(hex_char(b / 16));
        chars.push(hex_char(b % 16));
        proof {
            let t = bytes@.take(i + 1);
            assert forall|k: int| 0 <= k < chars@.len() implies #[trigger] chars@[k] == hex_upper(t)[k] by {
                if k < 2 * i {
                    assert(hex_upper(bytes@.take(i as int))[k] == hex_upper(t)[k]);
                }
            }
            assert(chars@ =~= hex_upper(t));
        }
        i += 1;
    }
    assert(bytes@.take(i as int) =~= bytes@);
    string_from_chars(chars.as_slice())
}

/// Text naming a key identifier: the identifier read as UTF-8 where it is
/// valid and not empty, its upper-case hexadecimal otherwise.
pub open spec fn id_text(id: Seq<u8>) -> Seq<char> {
    if valid_utf8(id) && id.len() > 0 { decode_utf8(id) } else { hex_upper(id) }
}

proof fn lemma_decode_nonempty(bytes: Seq<u8>)
    requires
        valid_utf8(bytes),
        bytes.len() > 0,
    ensures
        decode_utf8(bytes).len() > 0,
{
}

/// The text naming a key identifier (see [`id_text`]).
pub fn id_to_string(id: &[u8]) -> (s: String)
    ensures
        s@ == id_text(id@),
{
    match utf8_text(id) {
        Some(s) => {
            if id.len() > 0 {
                proof {
                    lemma_decode_nonempty(id@);
                }
                s
            } else {
                encode_upper_simple(id)
            }
        },
        None => encode_upper_simple(id),
    }
}

/// HiPKI label of a certificate: `cert1` for `SIGN`, `cert2` for `KEYX`,
/// `cert3` for `SIGN02`, otherwise the identifier's text.
pub open spec fn cert_label(id: Seq<u8>) -> Seq<char> {
    if id == default_sign_key_id() {
        seq!['c', 'e', 'r', 't', '1']
    } else if id == default_decrypt_key_id() {
        seq!['c', 'e', 'r', 't', '2']
    } else if id == sign02_key_id() {
        seq!['c', 'e', 'r', 't', '3']
    } else {
        id_text(id)
    }
}

/// The HiPKI label of a certificate with identifier `id`.
pub fn hipki_cert_label(id: &[u8]) -> (s: String)
    ensures
        s@ == cert_label(id@),
{
    let sign = sign_key_id_default();
    let keyx = decrypt_key_id_default();
    let sign02 = vec![0x53u8, 0x49, 0x47, 0x4E, 0x30, 0x32];
    assert(sign02@ =~= sign02_key_id());
    if bytes_eq(id, &sign) {
        let s = "cert1".to_owned();
        proof {
            reveal_strlit("cert1");
        }
        assert(s@ =~= seq!['c', 'e', 'r', 't', '1']);
        s
    } else if bytes_eq(id, &keyx) {
        let s = "cert2".to_owned();
        proof {
            reveal_strlit("cert2");
        }
        assert(s@ =~= seq!['c', 'e', 'r', 't', '2']);
        s
    } else if bytes_eq(id, &sign02) {
        let s = "cert3".to_owned();
        proof {
            reveal_strlit("cert3");
        }
        assert(s@ =~= seq!['c', 'e', 'r', 't', '3']);
        s
    } else {
        id_to_string(id)
    }
}

/// The mechanism type of a signing mode.
pub open spec fn mechanism_type(m: SignMechanism) -> CK_MECHANISM_TYPE {
    match m {
        SignMechanism::Sha1RsaPkcs => CKM_SHA1_RSA_PKCS,
        SignMechanism::Sha256RsaPkcs => CKM_SHA256_RSA_PKCS,
        SignMechanism::Sha384RsaPkcs => CKM_SHA384_RSA_PKCS,
        SignMechanism::Sha512RsaPkcs => CKM_SHA512_RSA_PKCS,
        SignMechanism::Md5RsaPkcs => CKM_MD5_RSA_PKCS,
        SignMechanism::RsaPkcs => 0,
    }
}

/// The bytes signed for `data`: its DigestInfo for the hash-and-sign modes,
/// `data` itself for `RsaPkcs`.
pub open spec fn sign_payload_of(m: SignMechanism, data: Seq<u8>) -> Seq<u8> {
    match m {
        SignMechanism::RsaPkcs => data,
        _ => hash_rsa_digest_info(mechanism_type(m), data)->0,
    }
}

/// The payload handed to the card to sign `data` with mode `mech`.
pub fn prepare_sign_payload(mech: SignMechanism, data: &[u8]) -> (r: Result<Vec<u8>>)
    ensures
        r matches Ok(v) && v@ == sign_payload_of(mech, data@),
{
    Ok(match mech {
        SignMechanism::RsaPkcs => bytes_to_vec(data),
        SignMechanism::Md5RsaPkcs => pad::digestinfo_md5(&crate::crypto::md5(data)),
        SignMechanism::Sha1RsaPkcs => pad::digestinfo_sha1(&crate::crypto::sha1(data)),
        SignMechanism::Sha256RsaPkcs => pad::digestinfo_sha256(&crate::crypto::sha256(data)),
        SignMechanism::Sha384RsaPkcs => pad::digestinfo_sha384(&crate::crypto::sha384(data)),
        SignMechanism::Sha512RsaPkcs => pad::digestinfo_sha512(&crate::crypto::sha512(data)),
    })
}

/// Index of the first certificate with identifier `id` and a value, at or
/// after `j`.
pub open spec fn cert_index(objs: Seq<TokenObject>, id: Seq<u8>, j: int) -> Option<int>
    decreases objs.len() - j,
{
    if j < 0 || j >= objs.len() {
        None
    } else if objs[j].cls == ObjClass::Cert && objs[j].id@ == id && objs[j].data@.len() > 0 {
        Some(j)
    } else {
        cert_index(objs, id, j + 1)
    }
}

/// The DER of the certificate with identifier `key_id`.
pub fn find_cert_der(token: &Token, key_id: &[u8]) -> (r: Result<Vec<u8>>)
    ensures
        match cert_index(token.objs@, key_id@, 0) {
            Some(j) => r matches Ok(v) && v@ == token.objs@[j].data@,
            None => r matches Err(Error::CertNotFound(s)) && s@ == id_text(key_id@),
        },
{
    let mut j: usize = 0;
    while j < token.objs.len()
        invariant
            j <= token.objs@.len(),
            cert_index(token.objs@, key_id@, 0) == cert_index(token.objs@, key_id@, j as int),
        decreases token.objs@.len() - j,
    {
        let o = &token.objs[j];
        if o.cls == ObjClass::Cert && bytes_eq(&o.id, key_id) && o.data.len() > 0 {
            return Ok(bytes_to_vec(&o.data));
        }
        j += 1;
    }
    Err(Error::CertNotFound(id_to_string(key_id)))
}

/// The certificates a token lists: those with a value, in token order.
pub open spec fn listed_certs(objs: Seq<TokenObject>) -> Seq<TokenObject>
    decreases objs.len(),
{
    if objs.len() == 0 {
        Seq::empty()
    } else {
        let rest = listed_certs(objs.drop_last());
        if objs.last().cls == ObjClass::Cert && objs.last().data@.len() > 0 { rest.push(objs.last()) } else { rest }
    }
}

/// The certificates of a token with their HiPKI labels.
pub fn list_certificates(token: &Token) -> (certs: Vec<Certificate>)
    ensures
        certs@.len() == listed_certs(token.objs@).len(),
        forall|k: int| 0 <= k < certs@.len() ==> {
            let o = #[trigger] listed_certs(token.objs@)[k];
            &&& certs@[k].id@ == o.id@
            &&& certs@[k].label@ == cert_label(o.id@)
            &&& certs@[k].der@ == o.data@
        },
{
    let mut certs: Vec<Certificate> = Vec::new();
    let mut j: usize = 0;
    while j < token.objs.len()
        invariant
            j <= token.objs@.len(),
            certs@.len() == listed_certs(token.objs@.take(j as int)).len(),
            forall|k: int| 0 <= k < certs@.len() ==> {
                let o = #[trigger] listed_certs(token.objs@.take(j as int))[k];
                &&& certs@[k].id@ == o.id@
                &&& certs@[k].label@ == cert_label(o.id@)
                &&& certs@[k].der@ == o.data@
            },
        decreases token.objs@.len() - j,
    {
        let o = &token.objs[j];
        assert(token.objs@.take(j + 1).drop_last() =~= token.objs@.take(j as int));
        if o.cls == ObjClass::Cert && o.data.len() > 0 {
            let label = hipki_cert_label(&o.id);
            certs.push(Certificate { id: bytes_to_vec(&o.id), label, der: bytes_to_vec(&o.data) });
        }
        j += 1;
    }
    assert(token.objs@.take(j as int) =~= token.objs@);
    certs
}

/// What an error says.
pub enum ErrorView {
    NoReader,
    NoToken,
    InvalidSlot(u64),
    TokenNotRecognized,
    PinIncorrect,
    PinLocked,
    PinError,
    KeyNotFound(Seq<char>),
    CertNotFound(Seq<char>),
    SignFailed,
    DecryptFailed,
    UnsupportedMechanism,
    InvalidLength,
    Pcsc(Seq<char>),
    Internal(Seq<char>),
}

impl View for Error {
    type V = ErrorView;

    open spec fn view(&self) -> ErrorView {
        match self {
            Error::NoReader => ErrorView::NoReader,
            Error::NoToken => ErrorView::NoToken,
            Error::InvalidSlot(id) => ErrorView::InvalidSlot(*id),
            Error::TokenNotRecognized => ErrorView::TokenNotRecognized,
            Error::PinIncorrect => ErrorView::PinIncorrect,
            Error::PinLocked => ErrorView::PinLocked,
            Error::PinError => ErrorView::PinError,
            Error::KeyNotFound(s) => ErrorView::KeyNotFound(s@),
            Error::CertNotFound(s) => ErrorView::CertNotFound(s@),
            Error::SignFailed => ErrorView::SignFailed,
            Error::DecryptFailed => ErrorView::DecryptFailed,
            Error::UnsupportedMechanism => ErrorView::UnsupportedMechanism,
            Error::InvalidLength => ErrorView::InvalidLength,
            Error::Pcsc(s) => ErrorView::Pcsc(s@),
            Error::Internal(s) => ErrorView::Internal(s@),
        }
    }
}

/// Errors after which the next reader is tried: a card not recognized, or
/// a PC/SC failure.
pub open spec fn is_recoverable(e: Error) -> bool {
    e is TokenNotRecognized || e is Pcsc
}

/// Whether reading a card that failed with `e` lets the search go on to the
/// next reader: the card was not recognized, or PC/SC failed for it.
pub fn recoverable(e: &Error) -> (b: bool)
    ensures
        b == is_recoverable(*e),
{
    matches!(e, Error::TokenNotRecognized) || matches!(e, Error::Pcsc(_))
}

/// Indices of the readers whose card was read, in order.
pub open spec fn bound_indices(bindings: Seq<Result<Token>>) -> Seq<int>
    decreases bindings.len(),
{
    if bindings.len() == 0 {
        Seq::empty()
    } else {
        let rest = bound_indices(bindings.drop_last());
        if bindings.last() is Ok { rest.push(bindings.len() - 1) } else { rest }
    }
}

/// Index of the first reader whose reading failed with an error that is
/// not recoverable.
pub open spec fn first_fatal(bindings: Seq<Result<Token>>, j: int) -> Option<int>
    decreases bindings.len() - j,
{
    if j < 0 || j >= bindings.len() {
        None
    } else if bindings[j] matches Err(e) && !is_recoverable(e) {
        Some(j)
    } else {
        first_fatal(bindings, j + 1)
    }
}

proof fn lemma_bound_indices_bounds(b: Seq<Result<Token>>)
    ensures
        forall|k: int| 0 <= k < bound_indices(b).len() ==> 0 <= #[trigger] bound_indices(b)[k] < b.len() && b[bound_indices(b)[k]] is Ok,
    decreases b.len(),
{
    if b.len() > 0 {
        lemma_bound_indices_bounds(b.drop_last());
    }
}

/// `info` describes the token read from reader `j`.
pub open spec fn describes(info: TokenInfo, readers: Seq<String>, bindings: Seq<Result<Token>>, j: int) -> bool {
    let t = bindings[j]->Ok_0;
    &&& info.slot_id == j
    &&& info.reader@ == readers[j]@
    &&& info.label@ == t.label@
    &&& info.model@ == t.model@
    &&& info.serial@ == t.serial@
}

/// The tokens of the readers, given what reading each reader's card gave
/// (in reader order): one entry per card read, numbered by its reader; the
/// first error that is not recoverable ends the listing; no reader, or no
/// card read, is an error.
pub fn list_tokens(readers: &[String], bindings: Vec<Result<Token>>) -> (r: Result<Vec<TokenInfo>>)
    requires
        readers@.len() == bindings@.len(),
    ensures
        readers@.len() == 0 ==> r matches Err(Error::NoReader),
        readers@.len() > 0 ==> match first_fatal(bindings@, 0) {
            Some(k) => r matches Err(e) && e == bindings@[k]->Err_0,
            None => {
                let idx = bound_indices(bindings@);
                if idx.len() == 0 {
                    r matches Err(Error::NoToken)
                } else {
                    r matches Ok(out) && out@.len() == idx.len() && forall|k: int| 0 <= k < idx.len() ==>
                        describes(#[trigger] out@[k], readers@, bindings@, idx[k])
                }
            },
        },
{
    if readers.len() == 0 {
        return Err(Error::NoReader);
    }
    let ghost all = bindings@;
    let mut rest = bindings;
    let mut out: Vec<TokenInfo> = Vec::new();
    let mut i: usize = 0;
    while i < readers.len()
        invariant
            i <= readers@.len(),
            readers@.len() == all.len(),
            all == bindings@,
            rest@ == all.subrange(i as int, all.len() as int),
            first_fatal(all, 0) == first_fatal(all, i as int),
            out@.len() == bound_indices(all.take(i as int)).len(),
            forall|k: int| 0 <= k < out@.len() ==> describes(#[trigger] out@[k], readers@, all, bound_indices(all.take(i as int))[k]),
        decreases readers@.len() - i,
    {
        let b = rest.remove(0);
        assert(b == all[i as int]);
        assert(rest@ =~= all.subrange(i + 1, all.len() as int));
        assert(all.take(i + 1).drop_last() =~= all.take(i as int));
        proof {
            lemma_bound_indices_bounds(all.take(i as int));
        }
        match b {
            Ok(token) => {
                out.push(TokenInfo {
                    slot_id: i as u64,
                    reader: readers[i].clone(),
                    label: token.label,
                    model: token.model,
                    serial: token.serial,
                });
                proof {
                    let idx = bound_indices(all.take(i + 1));
                    assert(idx == bound_indices(all.take(i as int)).push(i as int));
                    assert forall|k: int| 0 <= k < out@.len() implies describes(#[trigger] out@[k], readers@, all, idx[k]) by {
                        if k < out@.len() - 1 {
                            assert(idx[k] == bound_indices(all.take(i as int))[k]);
                        }
                    }
                }
            },
            Err(e) => {
                if !recoverable(&e) {
                    assert(!is_recoverable(e));
                    assert(first_fatal(all, i as int) == Some(i as int));
                    assert(e == all[i as int]->Err_0);
                    return Err(e);
                }
                assert(bound_indices(all.take(i + 1)) == bound_indices(all.take(i as int)));
            },
        }
        i += 1;
    }
    assert(all.take(i as int) =~= all);
    if out.len() == 0 {
        Err(Error::NoToken)
    } else {
        Ok(out)
    }
}

/// The readers a request may use: the one named by `slot_id`, or all in
/// order.
pub open spec fn candidates(slot_id: Option<u64>, n: nat) -> core::result::Result<Seq<int>, ErrorView> {
    if n == 0 {
        Err(ErrorView::NoReader)
    } else {
        match slot_id {
            Some(id) => if id >= n { Err(ErrorView::InvalidSlot(id)) } else { Ok(seq![id as int]) },
            None => Ok(Seq::new(n, |i: int| i)),
        }
    }
}

/// The readers a request may use, in the order to try them.
pub fn slot_candidates(slot_id: Option<u64>, n_readers: usize) -> (r: Result<Vec<usize>>)
    ensures
        match candidates(slot_id, n_readers as nat) {
            Ok(c) => r matches Ok(v) && v@.len() == c.len() && forall|k: int| 0 <= k < c.len() ==> #[trigger] v@[k] == c[k],
            Err(e) => r matches Err(x) && x@ == e,
        },
{
    if n_readers == 0 {
        return Err(Error::NoReader);
    }
    match slot_id {
        Some(id) => {
            if id >= n_readers as u64 {
                return Err(Error::InvalidSlot(id));
            }
            let mut v: Vec<usize> = Vec::new();
            v.push(id as usize);
            Ok(v)
        },
        None => {
            let mut v: Vec<usize> = Vec::new();
            while v.len() < n_readers
                invariant
                    v@.len() <= n_readers,
                    forall|k: int| 0 <= k < v@.len() ==> #[trigger] v@[k] == k,
                decreases n_readers - v@.len(),
            {
                let k = v.len();
                v.push(k);
            }
            Ok(v)
        },
    }
}

/// The outcome of trying the candidate readers in order, given what
/// reading each tried reader's card gave: the first card read; a
/// non-recoverable error ends the search; when all fail the last error is
/// answered (no token, where none was tried).
pub open spec fn slot_choice(outcomes: Seq<Result<Token>>, last: ErrorView) -> core::result::Result<int, ErrorView>
    decreases outcomes.len(),
{
    if outcomes.len() == 0 {
        Err(last)
    } else if outcomes[0] is Ok {
        Ok(0)
    } else if !is_recoverable(outcomes[0]->Err_0) {
        Err(outcomes[0]->Err_0@)
    } else {
        match slot_choice(outcomes.drop_first(), outcomes[0]->Err_0@) {
            Ok(k) => Ok(k + 1),
            Err(e) => Err(e),
        }
    }
}

/// A choice among later outcomes, counted from `i` places earlier.
pub open spec fn shifted(r: core::result::Result<int, ErrorView>, i: int) -> core::result::Result<int, ErrorView> {
    match r {
        Ok(k) => Ok(k + i),
        Err(e) => Err(e),
    }
}

/// Pick the slot to use from what reading the tried candidate readers gave
/// (in the order of [`slot_candidates`]): the index among the outcomes and
/// the token read, or the error (see [`slot_choice`]).
pub fn open_slot(outcomes: Vec<Result<Token>>) -> (r: Result<(usize, Token)>)
    ensures
        match slot_choice(outcomes@, ErrorView::NoToken) {
            Ok(k) => r matches Ok((j, t)) && j == k && t == outcomes@[k]->Ok_0,
            Err(e) => r matches Err(x) && x@ == e,
        },
{
    let ghost all = outcomes@;
    let n = outcomes.len();
    let mut rest = outcomes;
    let mut last = Error::NoToken;
    let mut i: usize = 0;
    assert(all.subrange(0, all.len() as int) =~= all);
    while rest.len() > 0
        invariant
            i + rest@.len() == all.len(),
            n == all.len(),
            all == outcomes@,
            rest@ == all.subrange(i as int, all.len() as int),
            slot_choice(all, ErrorView::NoToken) == shifted(slot_choice(rest@, last@), i as int),
        decreases rest@.len(),
    {
        let ghost before = rest@;
        let b = rest.remove(0);
        assert(rest@ =~= all.subrange(i + 1, all.len() as int));
        assert(before[0] == all[i as int]);
        assert(before.drop_first() =~= rest@);
        assert(b == before[0]);
        match b {
            Ok(t) => {
                assert(slot_choice(before, last@) == Ok::<int, ErrorView>(0));
                assert(all[i as int] == Ok::<Token, Error>(t));
                return Ok((i, t));
            },
            Err(e) => {
                if !recoverable(&e) {
                    assert(slot_choice(before, last@) == Err::<int, ErrorView>(e@));
                    return Err(e);
                }
                assert(slot_choice(before, last@) == shifted(slot_choice(rest@, e@), 1));
                last = e;
            },
        }
        i += 1;
    }
    Err(last)
}

/// The error a PIN check's outcome is, if any.
pub open spec fn pin_error(p: PinResult) -> Option<ErrorView> {
    match p {
        PinResult::Verified => None,
        PinResult::Incorrect => Some(ErrorView::PinIncorrect),
        PinResult::Locked => Some(ErrorView::PinLocked),
        PinResult::Error => Some(ErrorView::PinError),
    }
}

/// The connection after the card authentication is forgotten: a gen2
/// connection drops its channel, PIN and keys.
pub open spec fn cleared_conn(c: ConnectionModel) -> ConnectionModel {
    if c.card.profile == CardProfile::Gen2 { ConnectionModel { auth: cleared_auth(), ..c } } else { c }
}

/// Logging in with `pin`: an empty PIN is refused; otherwise the card
/// verifies it.
pub open spec fn spec_login(c: ConnectionModel, pin: Seq<char>, random: Option<Seq<u8>>, log: Seq<Option<Response>>, at: int)
    -> SFlow<(Option<ErrorView>, ConnectionModel)> {
    if pin.len() == 0 {
        SFlow::Done((Some(ErrorView::PinError), c), at)
    } else {
        then(
            spec_verify_pin(c, encode_utf8(pin), random, log, at),
            |v: (PinResult, ConnectionModel), n: int| SFlow::Done((pin_error(v.0), v.1), n),
        )
    }
}

/// A login outcome and what it describes.
pub open spec fn same_login(a: (Result<()>, Connection), b: (Option<ErrorView>, ConnectionModel)) -> bool {
    &&& match (a.0, b.0) {
        (Ok(_), None) => true,
        (Err(e), Some(v)) => e@ == v,
        _ => false,
    }
    &&& same_conn(a.1@, b.1)
    &&& a.1.wf()
}

fn copy_conn(c: &Connection) -> (r: Connection)
    requires
        c.wf(),
    ensures
        r.wf(),
        same_conn(r@, c@),
{
    Connection { card: c.card, auth: c.auth.copy() }
}

/// Verify the user PIN of the token's card, as a card dialogue.
pub fn login(conn: &Connection, token: &Token, pin: &str, random: &Option<Vec<u8>>, log: &[Option<Response>], at: usize)
    -> (r: Flow<(Result<()>, Connection)>)
    requires
        conn.wf(),
        random matches Some(v) ==> v@.len() == 8,
        at <= log@.len(),
    ensures
        flow_matches(r, spec_login(conn@, pin@, opt_bytes(*random), log@, at as int), |a, b| same_login(a, b)),
{
    if pin.is_empty() {
        return Flow::Done((Err(Error::PinError), copy_conn(conn)), at);
    }
    match verify_pin(conn, token.pin_ref, pin.as_bytes(), random, log, at) {
        Flow::Transmit(c) => Flow::Transmit(c),
        Flow::Done((p, c), n) => {
            let res = match p {
                PinResult::Verified => Ok(()),
                PinResult::Incorrect => Err(Error::PinIncorrect),
                PinResult::Locked => Err(Error::PinLocked),
                PinResult::Error => Err(Error::PinError),
            };
            Flow::Done((res, c), n)
        },
    }
}

/// Random bytes, by their view.
pub open spec fn opt_bytes(r: Option<Vec<u8>>) -> Option<Seq<u8>> {
    match r {
        Some(v) => Some(v@),
        None => None,
    }
}

/// Index of the first private key with identifier `id` at or after `j`
/// that may sign (or decrypt) and has a key reference.
pub open spec fn key_index(objs: Seq<TokenObject>, id: Seq<u8>, for_sign: bool, j: int) -> Option<int>
    decreases objs.len() - j,
{
    if j < 0 || j >= objs.len() {
        None
    } else if objs[j].cls == ObjClass::PrivKey && objs[j].id@ == id && (if for_sign { objs[j].can_sign } else { objs[j].can_decrypt })
        && objs[j].key_ref >= 0 {
        Some(j)
    } else {
        key_index(objs, id, for_sign, j + 1)
    }
}

/// The key reference of the first private key with identifier `id` that
/// may sign (or decrypt).
pub fn find_private_key(token: &Token, id: &[u8], for_sign: bool) -> (r: Option<u8>)
    ensures
        match key_index(token.objs@, id@, for_sign, 0) {
            Some(k) => r == Some(token.objs@[k].key_ref as u8),
            None => r is None,
        },
{
    let mut j: usize = 0;
    while j < token.objs.len()
        invariant
            j <= token.objs@.len(),
            key_index(token.objs@, id@, for_sign, 0) == key_index(token.objs@, id@, for_sign, j as int),
        decreases token.objs@.len() - j,
    {
        let o = &token.objs[j];
        let allowed = if for_sign { o.can_sign } else { o.can_decrypt };
        if o.cls == ObjClass::PrivKey && bytes_eq(&o.id, id) && allowed && o.key_ref >= 0 {
            return Some(o.key_ref as u8);
        }
        j += 1;
    }
    None
}

/// The key identifier a request names, or the default.
pub open spec fn key_id_or(k: Option<&[u8]>, default: Seq<u8>) -> Seq<u8> {
    match k {
        Some(v) => v@,
        None => default,
    }
}

/// The answer once the card operation gave `out`: with the matching
/// certificate where asked (its absence is an error); on success the card
/// authentication is forgotten.
pub open spec fn finish_reply(token: Token, key_id: Seq<u8>, want_cert: bool, out: Seq<u8>, c: ConnectionModel, m: int)
    -> SFlow<(core::result::Result<(Seq<u8>, Option<Seq<u8>>), ErrorView>, ConnectionModel)> {
    if want_cert {
        match cert_index(token.objs@, key_id, 0) {
            None => SFlow::Done((Err(ErrorView::CertNotFound(id_text(key_id))), c), m),
            Some(j) => SFlow::Done((Ok((out, Some(token.objs@[j].data@))), cleared_conn(c)), m),
        }
    } else {
        SFlow::Done((Ok((out, None)), cleared_conn(c)), m)
    }
}

/// The answer to a signature once the card answered `w`: an empty or
/// failed signature is a failure.
pub open spec fn sign_reply(token: Token, key_id: Seq<u8>, want_cert: bool, w: (core::result::Result<Seq<u8>, ()>, ConnectionModel), m: int)
    -> SFlow<(core::result::Result<(Seq<u8>, Option<Seq<u8>>), ErrorView>, ConnectionModel)> {
    match w.0 {
        Ok(sig) => if sig.len() == 0 {
            SFlow::Done((Err(ErrorView::SignFailed), w.1), m)
        } else {
            finish_reply(token, key_id, want_cert, sig, w.1, m)
        },
        Err(_) => SFlow::Done((Err(ErrorView::SignFailed), w.1), m),
    }
}

/// Signing once logged in: take the private key the request names (`SIGN`
/// by default) that may sign, have the card sign the payload, and add the
/// certificate where asked.
pub open spec fn spec_sign_with_key<'a>(req: SignRequest<'a>, token: Token, c: ConnectionModel, op_random: Option<Seq<u8>>, log: Seq<Option<Response>>, at: int)
    -> SFlow<(core::result::Result<(Seq<u8>, Option<Seq<u8>>), ErrorView>, ConnectionModel)> {
    let key_id = key_id_or(req.key_id, default_sign_key_id());
    match key_index(token.objs@, key_id, true, 0) {
        None => SFlow::Done((Err(ErrorView::KeyNotFound(id_text(key_id))), c), at),
        Some(k) => then(
            spec_sign(c, token.objs@[k].key_ref as u8, sign_payload_of(req.mechanism, req.data@), 512, op_random, log, at),
            |w: (core::result::Result<Seq<u8>, ()>, ConnectionModel), m: int| sign_reply(token, key_id, req.return_certificate, w, m),
        ),
    }
}

/// Signing a request with the token's card: log in (see [`spec_login`]),
/// then sign (see [`spec_sign_with_key`]). `login_random` and `op_random`
/// are the host challenges of the login and of the signature.
pub open spec fn spec_sign_request<'a>(
    req: SignRequest<'a>,
    token: Token,
    c: ConnectionModel,
    login_random: Option<Seq<u8>>,
    op_random: Option<Seq<u8>>,
    log: Seq<Option<Response>>,
    at: int,
) -> SFlow<(core::result::Result<(Seq<u8>, Option<Seq<u8>>), ErrorView>, ConnectionModel)> {
    then(
        spec_login(c, req.pin@, login_random, log, at),
        |v: (Option<ErrorView>, ConnectionModel), n: int| match v.0 {
            Some(e) => SFlow::Done((Err(e), v.1), n),
            None => spec_sign_with_key(req, token, v.1, op_random, log, n),
        },
    )
}

/// A signature answer and what it describes.
pub open spec fn same_sign_reply(a: (Result<SignResponse>, Connection), b: (core::result::Result<(Seq<u8>, Option<Seq<u8>>), ErrorView>, ConnectionModel)) -> bool {
    &&& match (a.0, b.0) {
        (Ok(r), Ok((sig, cert))) => r.signature@ == sig && opt_bytes(r.certificate_der) == cert,
        (Err(e), Err(v)) => e@ == v,
        _ => false,
    }
    &&& same_conn(a.1@, b.1)
    &&& a.1.wf()
}

fn finish_cert(token: &Token, key_id: &[u8], want_cert: bool, conn: Connection) -> (r: (Result<Option<Vec<u8>>>, Connection))
    requires
        conn.wf(),
    ensures
        r.1.wf(),
        finish_reply(*token, key_id@, want_cert, Seq::empty(), conn@, 0) matches SFlow::Done((x, c), _) && same_conn(r.1@, c) && match (r.0, x) {
            (Ok(cert), Ok((_, want))) => opt_bytes(cert) == want,
            (Err(e), Err(v)) => e@ == v,
            _ => false,
        },
{
    let mut conn = conn;
    let cert = if want_cert {
        match find_cert_der(token, key_id) {
            Ok(d) => Some(d),
            Err(e) => return (Err(e), conn),
        }
    } else {
        None
    };
    clear_auth_state(&mut conn);
    (Ok(cert), conn)
}

/// Sign once logged in, as a card dialogue (see [`spec_sign_with_key`]).
fn sign_with_key(
    req: &SignRequest,
    token: &Token,
    c1: Connection,
    op_random: &Option<Vec<u8>>,
    log: &[Option<Response>],
    n1: usize,
) -> (r: Flow<(Result<SignResponse>, Connection)>)
    requires
        c1.wf(),
        op_random matches Some(v) ==> v@.len() == 8,
        n1 <= log@.len(),
    ensures
        flow_matches(r, spec_sign_with_key(*req, *token, c1@, opt_bytes(*op_random), log@, n1 as int), |a, b| same_sign_reply(a, b)),
{
    let key_id = match req.key_id {
        Some(k) => bytes_to_vec(k),
        None => sign_key_id_default(),
    };
    let key_ref = match find_private_key(token, &key_id, true) {
        Some(k) => k,
        None => return Flow::Done((Err(Error::KeyNotFound(id_to_string(&key_id))), c1), n1),
    };
    let payload = match prepare_sign_payload(req.mechanism, req.data) {
        Ok(p) => p,
        Err(e) => return Flow::Done((Err(e), c1), n1),
    };
    let (res, c2, n2) = match card_sign(&c1, key_ref, &payload, 512, op_random, log, n1) {
        Flow::Transmit(c) => return Flow::Transmit(c),
        Flow::Done((res, c), n) => (res, c, n),
    };
    let signature = match res {
        Ok(s) => s,
        Err(_) => return Flow::Done((Err(Error::SignFailed), c2), n2),
    };
    if signature.len() == 0 {
        return Flow::Done((Err(Error::SignFailed), c2), n2);
    }
    let (cert, c3) = finish_cert(token, &key_id, req.return_certificate, c2);
    match cert {
        Ok(certificate_der) => Flow::Done((Ok(SignResponse { signature, certificate_der }), c3), n2),
        Err(e) => Flow::Done((Err(e), c3), n2),
    }
}

/// Sign a request with the token's card, as a card dialogue (see
/// [`spec_sign_request`]).
pub fn sign(
    req: &SignRequest,
    token: &Token,
    conn: &Connection,
    login_random: &Option<Vec<u8>>,
    op_random: &Option<Vec<u8>>,
    log: &[Option<Response>],
    at: usize,
) -> (r: Flow<(Result<SignResponse>, Connection)>)
    requires
        conn.wf(),
        login_random matches Some(v) ==> v@.len() == 8,
        op_random matches Some(v) ==> v@.len() == 8,
        at <= log@.len(),
    ensures
        flow_matches(
            r,
            spec_sign_request(*req, *token, conn@, opt_bytes(*login_random), opt_bytes(*op_random), log@, at as int),
            |a, b| same_sign_reply(a, b),
        ),
{
    let (logged, c1, n1) = match login(conn, token, req.pin, login_random, log, at) {
        Flow::Transmit(c) => return Flow::Transmit(c),
        Flow::Done((res, c), n) => (res, c, n),
    };
    if let Err(e) = logged {
        return Flow::Done((Err(e), c1), n1);
    }
    sign_with_key(req, token, c1, op_random, log, n1)
}

/// The message inside an OAEP block, where the block decodes.
pub open spec fn oaep_plain(alg: OaepHash, label: Seq<u8>, em: Seq<u8>) -> Option<Seq<u8>> {
    if em.len() >= 2 * pad::digest_len(alg) + 2 && em[0] == 0 && pad::mgf1_fits(alg, (em.len() - 1 - pad::digest_len(alg)) as nat) {
        pad::oaep_decoded(alg, label, em)
    } else {
        None
    }
}

/// The plaintext once the card answered `w` to the raw operation: the
/// OAEP-decoded message.
pub open spec fn oaep_reply(token: Token, key_id: Seq<u8>, want_cert: bool, hash: OaepHash, label: Seq<u8>, w: (core::result::Result<Seq<u8>, ()>, ConnectionModel), m: int)
    -> SFlow<(core::result::Result<(Seq<u8>, Option<Seq<u8>>), ErrorView>, ConnectionModel)> {
    match w.0 {
        Ok(raw) => match oaep_plain(hash, label, raw) {
            Some(p) => finish_reply(token, key_id, want_cert, p, w.1, m),
            None => SFlow::Done((Err(ErrorView::DecryptFailed), w.1), m),
        },
        Err(_) => SFlow::Done((Err(ErrorView::DecryptFailed), w.1), m),
    }
}

/// Decrypting once logged in: take the private key the request names
/// (`KEYX` by default) that may decrypt; have the card decrypt (PKCS#1
/// v1.5), or perform the raw operation on a 256-byte block and decode OAEP
/// on the host; add the certificate where asked.
pub open spec fn spec_decrypt_with_key<'a>(req: DecryptRequest<'a>, token: Token, c: ConnectionModel, op_random: Option<Seq<u8>>, log: Seq<Option<Response>>, at: int)
    -> SFlow<(core::result::Result<(Seq<u8>, Option<Seq<u8>>), ErrorView>, ConnectionModel)> {
    let key_id = key_id_or(req.key_id, default_decrypt_key_id());
    match key_index(token.objs@, key_id, false, 0) {
        None => SFlow::Done((Err(ErrorView::KeyNotFound(id_text(key_id))), c), at),
        Some(k) => match req.padding {
            DecryptPadding::RsaPkcs => then(
                spec_decrypt(c, token.objs@[k].key_ref as u8, req.ciphertext@, 512, op_random, log, at),
                |w: (core::result::Result<Seq<u8>, ()>, ConnectionModel), m: int| match w.0 {
                    Ok(p) => finish_reply(token, key_id, req.return_certificate, p, w.1, m),
                    Err(_) => SFlow::Done((Err(ErrorView::DecryptFailed), w.1), m),
                },
            ),
            DecryptPadding::RsaOaep { hash, label } => if req.ciphertext@.len() != 256 {
                SFlow::Done((Err(ErrorView::InvalidLength), c), at)
            } else {
                then(
                    spec_rsa_private_op(c, token.objs@[k].key_ref as u8, req.ciphertext@, 256, op_random, log, at),
                    |w: (core::result::Result<Seq<u8>, ()>, ConnectionModel), m: int|
                        oaep_reply(token, key_id, req.return_certificate, hash, label@, w, m),
                )
            },
        },
    }
}

/// Decrypting a request with the token's card: log in (see
/// [`spec_login`]), then decrypt (see [`spec_decrypt_with_key`]).
pub open spec fn spec_decrypt_request<'a>(
    req: DecryptRequest<'a>,
    token: Token,
    c: ConnectionModel,
    login_random: Option<Seq<u8>>,
    op_random: Option<Seq<u8>>,
    log: Seq<Option<Response>>,
    at: int,
) -> SFlow<(core::result::Result<(Seq<u8>, Option<Seq<u8>>), ErrorView>, ConnectionModel)> {
    then(
        spec_login(c, req.pin@, login_random, log, at),
        |v: (Option<ErrorView>, ConnectionModel), n: int| match v.0 {
            Some(e) => SFlow::Done((Err(e), v.1), n),
            None => spec_decrypt_with_key(req, token, v.1, op_random, log, n),
        },
    )
}

/// A decryption answer and what it describes.
pub open spec fn same_decrypt_reply(a: (Result<DecryptResponse>, Connection), b: (core::result::Result<(Seq<u8>, Option<Seq<u8>>), ErrorView>, ConnectionModel)) -> bool {
    &&& match (a.0, b.0) {
        (Ok(r), Ok((p, cert))) => r.plaintext@ == p && opt_bytes(r.certificate_der) == cert,
        (Err(e), Err(v)) => e@ == v,
        _ => false,
    }
    &&& same_conn(a.1@, b.1)
    &&& a.1.wf()
}

/// Decrypt once logged in, as a card dialogue (see
/// [`spec_decrypt_with_key`]).
#[verifier::rlimit(50)]
fn decrypt_with_key(
    req: &DecryptRequest,
    token: &Token,
    c1: Connection,
    op_random: &Option<Vec<u8>>,
    log: &[Option<Response>],
    n1: usize,
) -> (r: Flow<(Result<DecryptResponse>, Connection)>)
    requires
        c1.wf(),
        op_random matches Some(v) ==> v@.len() == 8,
        n1 <= log@.len(),
    ensures
        flow_matches(r, spec_decrypt_with_key(*req, *token, c1@, opt_bytes(*op_random), log@, n1 as int), |a, b| same_decrypt_reply(a, b)),
{
    let key_id = match req.key_id {
        Some(k) => bytes_to_vec(k),
        None => decrypt_key_id_default(),
    };
    let key_ref = match find_private_key(token, &key_id, false) {
        Some(k) => k,
        None => return Flow::Done((Err(Error::KeyNotFound(id_to_string(&key_id))), c1), n1),
    };
    let (plaintext, c2, n2) = match &req.padding {
        DecryptPadding::RsaPkcs => {
            let (res, c2, n2) = match card_decrypt(&c1, key_ref, req.ciphertext, 512, op_random, log, n1) {
                Flow::Transmit(c) => return Flow::Transmit(c),
                Flow::Done((res, c), n) => (res, c, n),
            };
            match res {
                Ok(p) => (p, c2, n2),
                Err(_) => return Flow::Done((Err(Error::DecryptFailed), c2), n2),
            }
        },
        DecryptPadding::RsaOaep { hash, label } => {
            if req.ciphertext.len() != 256 {
                return Flow::Done((Err(Error::InvalidLength), c1), n1);
            }
            let (res, c2, n2) = match rsa_private_op(&c1, key_ref, req.ciphertext, 256, op_random, log, n1) {
                Flow::Transmit(c) => return Flow::Transmit(c),
                Flow::Done((res, c), n) => (res, c, n),
            };
            let raw = match res {
                Ok(raw) => raw,
                Err(_) => return Flow::Done((Err(Error::DecryptFailed), c2), n2),
            };
            match pad::oaep_decode(*hash, label, &raw) {
                Ok(p) => (p, c2, n2),
                Err(_) => return Flow::Done((Err(Error::DecryptFailed), c2), n2),
            }
        },
    };
    let (cert, c3) = finish_cert(token, &key_id, req.return_certificate, c2);
    match cert {
        Ok(certificate_der) => Flow::Done((Ok(DecryptResponse { plaintext, certificate_der }), c3), n2),
        Err(e) => Flow::Done((Err(e), c3), n2),
    }
}

/// Decrypt a request with the token's card, as a card dialogue (see
/// [`spec_decrypt_request`]).
pub fn decrypt(
    req: &DecryptRequest,
    token: &Token,
    conn: &Connection,
    login_random: &Option<Vec<u8>>,
    op_random: &Option<Vec<u8>>,
    log: &[Option<Response>],
    at: usize,
) -> (r: Flow<(Result<DecryptResponse>, Connection)>)
    requires
        conn.wf(),
        login_random matches Some(v) ==> v@.len() == 8,
        op_random matches Some(v) ==> v@.len() == 8,
        at <= log@.len(),
    ensures
        flow_matches(
            r,
            spec_decrypt_request(*req, *token, conn@, opt_bytes(*login_random), opt_bytes(*op_random), log@, at as int),
            |a, b| same_decrypt_reply(a, b),
        ),
{
    let (logged, c1, n1) = match login(conn, token, req.pin, login_random, log, at) {
        Flow::Transmit(c) => return Flow::Transmit(c),
        Flow::Done((res, c), n) => (res, c, n),
    };
    if let Err(e) = logged {
        return Flow::Done((Err(e), c1), n1);
    }
    decrypt_with_key(req, token, c1, op_random, log, n1)
}

/// Decimal digit `d` (below 10).
pub open spec fn digit_of(d: nat) -> char {
    ((48 + d) as u32) as char
}

/// Decimal text of `n`.
pub open spec fn dec_text(n: nat) -> Seq<char>
    decreases n,
{
    if n < 10 { seq![digit_of(n)] } else { dec_text(n / 10) + seq![digit_of(n % 10)] }
}

fn digit_char(d: u64) -> (c: char)
    requires
        d < 10,
    ensures
        c == digit_of(d as nat),
{
    match d {
        0 => '0',
        1 => '1',
        2 => '2',
        3 => '3',
        4 => '4',
        5 => '5',
        6 => '6',
        7 => '7',
        8 => '8',
        _ => '9',
    }
}

fn push_decimal(out: &mut Vec<char>, n: u64)
    ensures
        final(out)@ == old(out)@ + dec_text(n as nat),
    decreases n,
{
    if n >= 10 {
        push_decimal(out, n / 10);
    }
    out.push(digit_char(n % 10));
    assert(out@ =~= old(out)@ + dec_text(n as nat));
}

fn push_str(out: &mut Vec<char>, s: &str)
    ensures
        final(out)@ == old(out)@ + s@,
{
    let n = s.unicode_len();
    let mut i: usize = 0;
    while i < n
        invariant
            i <= n,
            n == s@.len(),
            out@ == old(out)@ + s@.take(i as int),
        decreases n - i,
    {
        out.push(s.get_char(i));
        assert(out@ =~= old(out)@ + s@.take(i + 1));
        i += 1;
    }
    assert(s@.take(n as int) =~= s@);
}

/// The items of a byte list, in decimal, separated by `", "`.
pub open spec fn items_text(b: Seq<u8>) -> Seq<char>
    decreases b.len(),
{
    if b.len() == 0 {
        Seq::empty()
    } else if b.len() == 1 {
        dec_text(b[0] as nat)
    } else {
        items_text(b.drop_last()) + ", "@ + dec_text(b.last() as nat)
    }
}

/// A byte list as `Debug` shows it: `[1, 2, 3]`.
pub open spec fn list_text(b: Seq<u8>) -> Seq<char> {
    "["@ + items_text(b) + "]"@
}

fn push_list(out: &mut Vec<char>, b: &[u8])
    ensures
        final(out)@ == old(out)@ + list_text(b@),
{
    push_str(out, "[");
    let ghost start = out@;
    let mut i: usize = 0;
    while i < b.len()
        invariant
            i <= b@.len(),
            out@ == start + items_text(b@.take(i as int)),
        decreases b@.len() - i,
    {
        assert(b@.take(i + 1).drop_last() =~= b@.take(i as int));
        if i > 0 {
            push_str(out, ", ");
        }
        push_decimal(out, b[i] as u64);
        i += 1;
        assert(out@ =~= start + items_text(b@.take(i as int)));
    }
    assert(b@.take(i as int) =~= b@);
    push_str(out, "]");
    assert(out@ =~= old(out)@ + list_text(b@));
}

/// An optional number as `Debug` shows it.
pub open spec fn opt_num_text(v: Option<u64>) -> Seq<char> {
    match v {
        Some(n) => "Some("@ + dec_text(n as nat) + ")"@,
        None => "None"@,
    }
}

/// An optional byte list as `Debug` shows it.
pub open spec fn opt_list_text(v: Option<Seq<u8>>) -> Seq<char> {
    match v {
        Some(b) => "Some("@ + list_text(b) + ")"@,
        None => "None"@,
    }
}

/// A boolean as `Debug` shows it.
pub open spec fn bool_text(b: bool) -> Seq<char> {
    if b { "true"@ } else { "false"@ }
}

/// A signing mode's name.
pub open spec fn mechanism_name(m: SignMechanism) -> Seq<char> {
    match m {
        SignMechanism::Sha1RsaPkcs => "Sha1RsaPkcs"@,
        SignMechanism::Sha256RsaPkcs => "Sha256RsaPkcs"@,
        SignMechanism::Sha384RsaPkcs => "Sha384RsaPkcs"@,
        SignMechanism::Sha512RsaPkcs => "Sha512RsaPkcs"@,
        SignMechanism::Md5RsaPkcs => "Md5RsaPkcs"@,
        SignMechanism::RsaPkcs => "RsaPkcs"@,
    }
}

/// An OAEP hash's name.
pub open spec fn hash_name(h: OaepHash) -> Seq<char> {
    match h {
        OaepHash::Sha1 => "Sha1"@,
        OaepHash::Sha256 => "Sha256"@,
        OaepHash::Sha384 => "Sha384"@,
        OaepHash::Sha512 => "Sha512"@,
    }
}

/// A decryption padding as `Debug` shows it.
pub open spec fn padding_text(p: DecryptPadding) -> Seq<char> {
    match p {
        DecryptPadding::RsaPkcs => "RsaPkcs"@,
        DecryptPadding::RsaOaep { hash, label } => "RsaOaep { hash: "@ + hash_name(hash) + ", label: "@ + list_text(label@) + " }"@,
    }
}

fn push_opt_num(out: &mut Vec<char>, v: Option<u64>)
    ensures
        final(out)@ == old(out)@ + opt_num_text(v),
{
    match v {
        Some(n) => {
            push_str(out, "Some(");
            push_decimal(out, n);
            push_str(out, ")");
        },
        None => push_str(out, "None"),
    }
    assert(out@ =~= old(out)@ + opt_num_text(v));
}

fn push_opt_list(out: &mut Vec<char>, v: Option<&[u8]>)
    ensures
        final(out)@ == old(out)@ + opt_list_text(match v { Some(b) => Some(b@), None => None }),
{
    match v {
        Some(b) => {
            push_str(out, "Some(");
            push_list(out, b);
            push_str(out, ")");
        },
        None => push_str(out, "None"),
    }
    assert(out@ =~= old(out)@ + opt_list_text(match v { Some(b) => Some(b@), None => None }));
}

fn push_bool(out: &mut Vec<char>, b: bool)
    ensures
        final(out)@ == old(out)@ + bool_text(b),
{
    if b { push_str(out, "true") } else { push_str(out, "false") }
}

/// A signature request as `Debug` shows it, the PIN redacted and the data
/// given by its length.
pub open spec fn sign_request_text(slot_id: Option<u64>, key_id: Option<Seq<u8>>, m: SignMechanism, data_len: nat, rc: bool) -> Seq<char> {
    "SignRequest { slot_id: "@ + opt_num_text(slot_id) + ", pin: \"<redacted>\", key_id: "@ + opt_list_text(key_id)
        + ", mechanism: "@ + mechanism_name(m) + ", data_len: "@ + dec_text(data_len) + ", return_certificate: "@
        + bool_text(rc) + " }"@
}

/// A decryption request as `Debug` shows it, the PIN redacted and the
/// ciphertext given by its length.
pub open spec fn decrypt_request_text(slot_id: Option<u64>, key_id: Option<Seq<u8>>, p: DecryptPadding, ct_len: nat, rc: bool) -> Seq<char> {
    "DecryptRequest { slot_id: "@ + opt_num_text(slot_id) + ", pin: \"<redacted>\", key_id: "@ + opt_list_text(key_id)
        + ", padding: "@ + padding_text(p) + ", ciphertext_len: "@ + dec_text(ct_len) + ", return_certificate: "@
        + bool_text(rc) + " }"@
}

impl<'a> SignRequest<'a> {
    /// The request's debug text: every field but the PIN, which is shown as
    /// `<redacted>`, and the data only by its length.
    pub fn debug_text(&self) -> (s: String)
        ensures
            s@ == sign_request_text(
                self.slot_id,
                match self.key_id { Some(b) => Some(b@), None => None },
                self.mechanism,
                self.data@.len(),
                self.return_certificate,
            ),
    {
        let mut out: Vec<char> = Vec::new();
        push_str(&mut out, "SignRequest { slot_id: ");
        push_opt_num(&mut out, self.slot_id);
        push_str(&mut out, ", pin: \"<redacted>\", key_id: ");
        push_opt_list(&mut out, self.key_id);
        push_str(&mut out, ", mechanism: ");
        match self.mechanism {
            SignMechanism::Sha1RsaPkcs => push_str(&mut out, "Sha1RsaPkcs"),
            SignMechanism::Sha256RsaPkcs => push_str(&mut out, "Sha256RsaPkcs"),
            SignMechanism::Sha384RsaPkcs => push_str(&mut out, "Sha384RsaPkcs"),
            SignMechanism::Sha512RsaPkcs => push_str(&mut out, "Sha512RsaPkcs"),
            SignMechanism::Md5RsaPkcs => push_str(&mut out, "Md5RsaPkcs"),
            SignMechanism::RsaPkcs => push_str(&mut out, "RsaPkcs"),
        }
        push_str(&mut out, ", data_len: ");
        push_decimal(&mut out, self.data.len() as u64);
        push_str(&mut out, ", return_certificate: ");
        push_bool(&mut out, self.return_certificate);
        push_str(&mut out, " }");
        assert(out@ =~= sign_request_text(
            self.slot_id,
            match self.key_id { Some(b) => Some(b@), None => None },
            self.mechanism,
            self.data@.len(),
            self.return_certificate,
        ));
        string_from_chars(out.as_slice())
    }
}

impl<'a> DecryptRequest<'a> {
    /// The request's debug text: every field but the PIN, which is shown as
    /// `<redacted>`, and the ciphertext only by its length.
    pub fn debug_text(&self) -> (s: String)
        ensures
            s@ == decrypt_request_text(
                self.slot_id,
                match self.key_id { Some(b) => Some(b@), None => None },
                self.padding,
                self.ciphertext@.len(),
                self.return_certificate,
            ),
    {
        let mut out: Vec<char> = Vec::new();
        push_str(&mut out, "DecryptRequest { slot_id: ");
        push_opt_num(&mut out, self.slot_id);
        push_str(&mut out, ", pin: \"<redacted>\", key_id: ");
        push_opt_list(&mut out, self.key_id);
        push_str(&mut out, ", padding: ");
        let ghost before = out@;
        match &self.padding {
            DecryptPadding::RsaPkcs => push_str(&mut out, "RsaPkcs"),
            DecryptPadding::RsaOaep { hash, label } => {
                push_str(&mut out, "RsaOaep { hash: ");
                match hash {
                    OaepHash::Sha1 => push_str(&mut out, "Sha1"),
                    OaepHash::Sha256 => push_str(&mut out, "Sha256"),
                    OaepHash::Sha384 => push_str(&mut out, "Sha384"),
                    OaepHash::Sha512 => push_str(&mut out, "Sha512"),
                }
                push_str(&mut out, ", label: ");
                push_list(&mut out, label);
                push_str(&mut out, " }");
            },
        }
        assert(out@ =~= before + padding_text(self.padding));
        push_str(&mut out, ", ciphertext_len: ");
        push_decimal(&mut out, self.ciphertext.len() as u64);
        push_str(&mut out, ", return_certificate: ");
        push_bool(&mut out, self.return_certificate);
        push_str(&mut out, " }");
        assert(out@ =~= decrypt_request_text(
            self.slot_id,
            match self.key_id { Some(b) => Some(b@), None => None },
            self.padding,
            self.ciphertext@.len(),
            self.return_certificate,
        ));
        string_from_chars(out.as_slice())
    }
}

/// The debug text of a signature request does not depend on its PIN: two
/// requests that differ only in the PIN show the same text.
pub proof fn lemma_sign_request_text_hides_pin<'a>(a: SignRequest<'a>, b: SignRequest<'a>)
    requires
        a.slot_id == b.slot_id,
        a.key_id == b.key_id,
        a.mechanism == b.mechanism,
        a.data@.len() == b.data@.len(),
        a.return_certificate == b.return_certificate,
    ensures
        sign_request_text(a.slot_id, match a.key_id { Some(k) => Some(k@), None => None }, a.mechanism, a.data@.len(), a.return_certificate)
            == sign_request_text(b.slot_id, match b.key_id { Some(k) => Some(k@), None => None }, b.mechanism, b.data@.len(), b.return_certificate),
{
}

/// The debug text of a decryption request does not depend on its PIN: two
/// requests that differ only in the PIN show the same text.
pub proof fn lemma_decrypt_request_text_hides_pin<'a>(a: DecryptRequest<'a>, b: DecryptRequest<'a>)
    requires
        a.slot_id == b.slot_id,
        a.key_id == b.key_id,
        a.padding == b.padding,
        a.ciphertext@.len() == b.ciphertext@.len(),
        a.return_certificate == b.return_certificate,
    ensures
        decrypt_request_text(a.slot_id, match a.key_id { Some(k) => Some(k@), None => None }, a.padding, a.ciphertext@.len(), a.return_certificate)
            == decrypt_request_text(b.slot_id, match b.key_id { Some(k) => Some(k@), None => None }, b.padding, b.ciphertext@.len(), b.return_certificate),
{
}

/// What an error says, as its message shows it.
pub open spec fn error_text(e: ErrorView) -> Seq<char> {
    match e {
        ErrorView::NoReader => "no PC/SC reader found"@,
        ErrorView::NoToken => "no usable GPKI token present"@,
        ErrorView::InvalidSlot(id) => "slot "@ + dec_text(id as nat) + " is invalid"@,
        ErrorView::TokenNotRecognized => "token not recognized as a GPKI card"@,
        ErrorView::PinIncorrect => "PIN incorrect"@,
        ErrorView::PinLocked => "PIN locked"@,
        ErrorView::PinError => "PIN verify failed"@,
        ErrorView::KeyNotFound(id) => "private key not found (id="@ + id + ")"@,
        ErrorView::CertNotFound(id) => "certificate not found (id="@ + id + ")"@,
        ErrorView::SignFailed => "sign operation failed"@,
        ErrorView::DecryptFailed => "decrypt operation failed"@,
        ErrorView::UnsupportedMechanism => "unsupported mechanism"@,
        ErrorView::InvalidLength => "invalid input length"@,
        ErrorView::Pcsc(msg) => "PC/SC error: "@ + msg,
        ErrorView::Internal(msg) => "internal error: "@ + msg,
    }
}

impl Error {
    /// The error's message.
    pub fn message(&self) -> (s: String)
        ensures
            s@ == error_text(self@),
    {
        let mut out: Vec<char> = Vec::new();
        match self {
            Error::NoReader => push_str(&mut out, "no PC/SC reader found"),
            Error::NoToken => push_str(&mut out, "no usable GPKI token present"),
            Error::InvalidSlot(id) => {
                push_str(&mut out, "slot ");
                push_decimal(&mut out, *id);
                push_str(&mut out, " is invalid");
            },
            Error::TokenNotRecognized => push_str(&mut out, "token not recognized as a GPKI card"),
            Error::PinIncorrect => push_str(&mut out, "PIN incorrect"),
            Error::PinLocked => push_str(&mut out, "PIN locked"),
            Error::PinError => push_str(&mut out, "PIN verify failed"),
            Error::KeyNotFound(id) => {
                push_str(&mut out, "private key not found (id=");
                push_str(&mut out, id.as_str());
                push_str(&mut out, ")");
            },
            Error::CertNotFound(id) => {
                push_str(&mut out, "certificate not found (id=");
                push_str(&mut out, id.as_str());
                push_str(&mut out, ")");
            },
            Error::SignFailed => push_str(&mut out, "sign operation failed"),
            Error::DecryptFailed => push_str(&mut out, "decrypt operation failed"),
            Error::UnsupportedMechanism => push_str(&mut out, "unsupported mechanism"),
            Error::InvalidLength => push_str(&mut out, "invalid input length"),
            Error::Pcsc(msg) => {
                push_str(&mut out, "PC/SC error: ");
                push_str(&mut out, msg.as_str());
            },
            Error::Internal(msg) => {
                push_str(&mut out, "internal error: ");
                push_str(&mut out, msg.as_str());
            },
        }
        assert(out@ =~= error_text(self@));
        string_from_chars(out.as_slice())
    }
}

} // verus!
