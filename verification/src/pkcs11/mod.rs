//! The PKCS#11 module: Cryptoki types and the session, object and
//! cryptographic-operation logic behind the C entry points.

pub mod module;
pub mod types;
