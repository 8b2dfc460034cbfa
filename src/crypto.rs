//! Hashes, the HMAC check and the key-derivation chain.
use hmac::{Mac, NewMac};
use sha2::Digest;
use vstd::prelude::*;
use vstd::string::StringSliceAdditionalSpecFns;

use crate::bytes::append;
use crate::error::BinaryParseError;

verus! {

/// Length of a SHA-256 digest and of the HMAC-SHA256 tag.
pub const SHA256_OUTPUT_LENGTH: usize = 32;

/// Length of a SHA-512 digest.
pub const SHA512_OUTPUT_LENGTH: usize = 64;

/// Length of the key that a key-derivation function produces.
pub const KDF_OUTPUT_LENGTH: usize = 32;

/// The SHA-256 digest of `data`.
pub uninterp spec fn sha256_of(data: Seq<u8>) -> Seq<u8>;

/// The SHA-512 digest of `data`.
pub uninterp spec fn sha512_of(data: Seq<u8>) -> Seq<u8>;

/// The HMAC-SHA256 tag of `data` under `key`.
pub uninterp spec fn hmac_sha256_of(key: Seq<u8>, data: Seq<u8>) -> Seq<u8>;

/// Relies on sha2's `Sha256::digest`: the SHA-256 digest of `data`.
#[verifier::external_body]
fn sha256(data: &[u8]) -> (r: [u8; 32])
    ensures
        r@ == sha256_of(data@),
{
    sha2::Sha256::digest(data).into()
}

/// Relies on sha2's `Sha512::digest`: the SHA-512 digest of `data`.
#[verifier::external_body]
fn sha512(data: &[u8]) -> (r: [u8; 64])
    ensures
        r@ == sha512_of(data@),
{
    let mut out = [0u8; 64];
    out.copy_from_slice(&sha2::Sha512::digest(data));
    out
}

/// Relies on hmac's `Hmac<Sha256>`: `new_from_slice` takes a key of any length, and
/// `verify` compares the tag of `data` with `tag` in constant time.
#[verifier::external_body]
fn hmac_sha256_matches(key: &[u8], data: &[u8], tag: &[u8]) -> (r: bool)
    ensures
        r == (hmac_sha256_of(key@, data@) == tag@),
{
    let mut mac = hmac::Hmac::<sha2::Sha256>::new_from_slice(key).unwrap();
    mac.update(data);
    mac.verify(tag).is_ok()
}

/// The SHA-256 digest of the first `length` bytes of `data`.
pub fn calculate_sha256(data: &[u8], length: usize) -> (r: Result<[u8; 32], BinaryParseError>)
    ensures
        length <= data@.len() ==> r == Ok::<[u8; 32], BinaryParseError>(r->Ok_0) && r->Ok_0@
            == sha256_of(data@.subrange(0, length as int)),
        length > data@.len() ==> r == Err::<[u8; 32], BinaryParseError>(
            BinaryParseError::UnexpectedEof,
        ),
{
    if length > data.len() {
        return Err(BinaryParseError::UnexpectedEof);
    }
    let region = vstd::slice::slice_subrange(data, 0, length);
    Ok(sha256(region))
}

/// Whether `tag` is the HMAC-SHA256 tag of the first `length` bytes of `data` under `key`.
pub fn verify_hmac_sha256(data: &[u8], length: usize, key: &HmacKey, tag: &[u8]) -> (r: Result<
    bool,
    BinaryParseError,
>)
    ensures
        length <= data@.len() ==> r == Ok::<bool, BinaryParseError>(
            hmac_sha256_of(key.key@, data@.subrange(0, length as int)) == tag@,
        ),
        length > data@.len() ==> r == Err::<bool, BinaryParseError>(
            BinaryParseError::UnexpectedEof,
        ),
{
    if length > data.len() {
        return Err(BinaryParseError::UnexpectedEof);
    }
    let region = vstd::slice::slice_subrange(data, 0, length);
    Ok(hmac_sha256_matches(&key.key, region, tag))
}

/// The 16 bytes of `data` from `pos` as an array.
pub(crate) fn copy16(data: &[u8], pos: usize) -> (r: [u8; 16])
    requires
        pos + 16 <= data@.len(),
    ensures
        r@ == data@.subrange(pos as int, pos + 16),
{
    let mut buf = [0u8; 16];
    let mut i: usize = 0;
    while i < 16
        invariant
            i <= 16,
            pos + 16 <= data.len(),
            forall|j: int| 0 <= j < i ==> buf@[j] == data@[pos + j],
        decreases 16 - i,
    {
        buf[i] = data[pos + i];
        i = i + 1;
    }
    assert(buf@ =~= data@.subrange(pos as int, pos + 16));
    buf
}

/// The 32 bytes of `data` from `pos` as an array.
pub(crate) fn copy32(data: &[u8], pos: usize) -> (r: [u8; 32])
    requires
        pos + 32 <= data@.len(),
    ensures
        r@ == data@.subrange(pos as int, pos + 32),
{
    let mut buf = [0u8; 32];
    let mut i: usize = 0;
    while i < 32
        invariant
            i <= 32,
            pos + 32 <= data.len(),
            forall|j: int| 0 <= j < i ==> buf@[j] == data@[pos + j],
        decreases 32 - i,
    {
        buf[i] = data[pos + i];
        i = i + 1;
    }
    assert(buf@ =~= data@.subrange(pos as int, pos + 32));
    buf
}

/// The per-file seed mixed into the HMAC key.
#[derive(Debug, Clone, Copy)]
pub struct MasterSeed(pub [u8; 16]);

/// The legacy per-file transform seed; carried but not used by this format version.
#[derive(Debug, Clone, Copy)]
pub struct TransformSeed(pub [u8; 16]);

/// The key of the inner stream cipher; carried for the payload stage.
#[derive(Debug, Clone)]
pub struct ProtectedStreamKey(pub Vec<u8>);

impl MasterSeed {
    /// Reads a master seed: the 16 bytes of `data` from `pos`.
    pub fn read_from(data: &[u8], pos: usize) -> (r: Result<MasterSeed, BinaryParseError>)
        ensures
            pos + 16 <= data@.len() ==> (r matches Ok(s) && s.0@ == data@.subrange(
                pos as int,
                pos + 16,
            )),
            pos + 16 > data@.len() ==> r == Err::<MasterSeed, BinaryParseError>(
                BinaryParseError::UnexpectedEof,
            ),
    {
        if pos > data.len() || data.len() - pos < 16 {
            return Err(BinaryParseError::UnexpectedEof);
        }
        Ok(MasterSeed(copy16(data, pos)))
    }
}

/// The password-derived key, independent of any per-file parameter.
#[derive(Clone)]
pub struct CompositeKey {
    pub key: [u8; 32],
}

/// The composite key after the key-derivation function.
#[derive(Clone)]
pub struct TransformedKey {
    pub key: [u8; 32],
}

/// The key of the header's HMAC.
#[derive(Clone)]
pub struct HmacKey {
    pub key: [u8; 64],
}

/// The composite key of a password: its bytes hashed twice with SHA-256.
pub open spec fn composite_key_of(password: Seq<u8>) -> Seq<u8> {
    sha256_of(sha256_of(password))
}

/// The HMAC key of a master seed and a transformed key.
pub open spec fn hmac_key_of(master_seed: Seq<u8>, transformed_key: Seq<u8>) -> Seq<u8> {
    sha512_of(master_seed + transformed_key + seq![1u8])
}

impl CompositeKey {
    /// Derives the composite key of `password`.
    #[allow(non_snake_case)]
    pub fn fromPassword(password: &str) -> (r: CompositeKey)
        ensures
            r.key@ == composite_key_of(password.spec_bytes()),
    {
        let once = sha256(password.as_bytes());
        let twice = sha256(&once);
        CompositeKey { key: twice }
    }
}

impl HmacKey {
    /// Derives the HMAC key from the master seed and the transformed key.
    pub fn new(master_seed: &MasterSeed, transformed_key: &TransformedKey) -> (r: HmacKey)
        ensures
            r.key@ == hmac_key_of(master_seed.0@, transformed_key.key@),
    {
        let mut input: Vec<u8> = Vec::new();
        append(&mut input, &master_seed.0);
        append(&mut input, &transformed_key.key);
        input.push(1u8);
        assert(input@ =~= master_seed.0@ + transformed_key.key@ + seq![1u8]);
        HmacKey { key: sha512(input.as_slice()) }
    }
}

} // verus!
