//! Verified core of a PKCS#11 module for HiCOS smart cards: DER parsing,
//! PKCS#15 directory decoding, APDU construction and card dialogues, and the
//! padding and secure-messaging arithmetic around them.

pub mod apdu;
pub mod api;
pub mod bytes;
pub mod crypto;
pub mod der;
pub mod hicos;
pub mod p15;
pub mod pcsc;
pub mod pkcs11;
pub mod text;
