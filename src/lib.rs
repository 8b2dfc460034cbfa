//! Reader for the outer header of KDBX 4 password-database files.
//!
//! The header is parsed from an in-memory byte buffer, its integrity hash
//! is checked, and, given a password, the key-derivation chain is run and
//! the header's HMAC tag is verified.
pub mod bytes;
pub mod crypto;
pub mod error;
pub mod dict;
pub mod kdf;
pub mod outer;
