//! The failures that parsing and validating a header can end in.
use vstd::prelude::*;

verus! {

#[verifier::external_type_specification]
#[verifier::external_body]
pub struct ExArgon2Error(argon2::Error);

/// A failure of a key-derivation primitive.
#[derive(Debug)]
pub enum CryptoError {
    /// Argon2 rejected its configuration or inputs.
    Argon2Error(argon2::Error),
    /// The key-derivation function is recognised but deliberately not supported (AES-KDF).
    KdfNotImplemented,
}

/// Everything that can go wrong while reading and authenticating a header.
#[derive(Debug)]
pub enum BinaryParseError {
    /// The first word is not the file magic.
    NotKdbFile { magic: u32 },
    /// The format magic or the major version does not match.
    UnsupportedVersion { magic: u32, version: u32 },
    /// The version of a variant dictionary does not have major version 1.
    UnsupportedVariantDictionaryVersion(u16),
    /// A known field holds a value outside its range (a UUID, an enum code, a cost).
    UnknownFieldValue { field: &'static str, value: u128 },
    /// A declared length exceeds its bound.
    FieldTooLarge(u32),
    /// A required header field or dictionary key is absent.
    FieldNotFound(&'static str),
    /// The header's integrity hash does not match its bytes.
    ValidationError,
    /// The header's HMAC tag does not match: wrong password or tampering.
    AuthenticationError,
    /// A key-derivation primitive failed.
    CryptoError(CryptoError),
    /// The input ended before a complete value could be read.
    UnexpectedEof,
    /// A string's bytes are not well-formed UTF-8.
    Utf8Error,
}

} // verus!
