//! Key-derivation functions: the composite key stretched into the transformed key.
use vstd::prelude::*;

use crate::crypto::{CompositeKey, TransformedKey, KDF_OUTPUT_LENGTH};
use crate::error::CryptoError;

verus! {

/// The Argon2 hash of `password` with `salt`, of `hash_length` bytes, for the given
/// variant code, version code, memory cost (KiB), time cost and lane count, with an
/// empty secret and empty associated data (the thread mode does not change the result).
pub uninterp spec fn argon2_of(
    password: Seq<u8>,
    salt: Seq<u8>,
    variant: u32,
    version: u32,
    mem_cost: u32,
    time_cost: u32,
    lanes: u32,
    hash_length: u32,
) -> Seq<u8>;

/// The largest memory cost (KiB) that rust-argon2 accepts on this machine: 2 GiB where
/// pointers are 32 bits wide, else any `u32`.
pub open spec fn argon2_max_memory() -> nat {
    if usize::BITS == 32 {
        0x20_0000
    } else {
        0xFFFF_FFFF
    }
}

/// Whether rust-argon2 accepts a configuration: a known variant and version, 1 to
/// 0xFF_FFFF lanes, at least 8 KiB of memory per lane and within its maximum, at least
/// one pass, a password and salt of at most `u32::MAX` bytes, a salt of at least 8
/// bytes and an output of at least 4 bytes.
pub open spec fn argon2_accepts(
    variant: u32,
    version: u32,
    mem_cost: u32,
    time_cost: u32,
    lanes: u32,
    salt_len: nat,
    password_len: nat,
    hash_length: u32,
) -> bool {
    &&& variant <= 2
    &&& (version == 0x10 || version == 0x13)
    &&& 1 <= lanes <= 0xFF_FFFF
    &&& 8 <= mem_cost <= argon2_max_memory()
    &&& mem_cost >= 8 * lanes
    &&& time_cost >= 1
    &&& password_len <= 0xFFFF_FFFF
    &&& 8 <= salt_len <= 0xFFFF_FFFF
    &&& hash_length >= 4
}

/// Relies on rust-argon2's `hash_raw`, with `Variant::from_u32` and `Version::from_u32`
/// turning the codes into its enums: it succeeds exactly when `Context::new`'s checks
/// pass, and then the hash has `hash_length` bytes.
#[verifier::external_body]
fn argon2_hash_raw(
    password: &[u8],
    salt: &[u8],
    variant: u32,
    version: u32,
    mem_cost: u32,
    time_cost: u32,
    lanes: u32,
    hash_length: u32,
) -> (r: Result<Vec<u8>, argon2::Error>)
    ensures
        r matches Ok(h) ==> h@ == argon2_of(
            password@,
            salt@,
            variant,
            version,
            mem_cost,
            time_cost,
            lanes,
            hash_length,
        ) && h@.len() == hash_length,
        r is Ok <==> argon2_accepts(
            variant,
            version,
            mem_cost,
            time_cost,
            lanes,
            salt@.len(),
            password@.len(),
            hash_length,
        ),
{
    let config = argon2::Config {
        variant: argon2::Variant::from_u32(variant)?,
        version: argon2::Version::from_u32(version)?,
        mem_cost,
        time_cost,
        lanes,
        thread_mode: argon2::ThreadMode::Parallel,
        secret: &[],
        ad: &[],
        hash_length,
    };
    argon2::hash_raw(password, salt, &config)
}

/// The variant code of Argon2d.
pub const ARGON2_VARIANT_D: u32 = 0;

/// AES-KDF parameters: recognised, but derivation with them is not supported.
#[derive(Debug)]
pub struct AesKdf {
    pub seed: Vec<u8>,
    pub iterations: u64,
}

/// Argon2 parameters.
#[derive(Debug)]
pub struct Argon2 {
    /// Variant code (0 is Argon2d).
    pub variant: u32,
    pub version: u32,
    pub salt: Vec<u8>,
    /// Number of passes.
    pub time_cost: u32,
    /// Memory in KiB.
    pub mem_cost: u32,
    pub lanes: u32,
}

/// The transformed key that Argon2 with parameters `p` gives for the composite key `key`.
pub open spec fn argon2_key(p: &Argon2, key: Seq<u8>) -> Seq<u8> {
    argon2_of(
        key,
        p.salt@,
        p.variant,
        p.version,
        p.mem_cost,
        p.time_cost,
        p.lanes,
        KDF_OUTPUT_LENGTH as u32,
    )
}

/// Whether rust-argon2 accepts the parameters `p` for a 32-byte key from a 32-byte
/// composite key.
pub open spec fn argon2_accepts_params(p: &Argon2) -> bool {
    argon2_accepts(
        p.variant,
        p.version,
        p.mem_cost,
        p.time_cost,
        p.lanes,
        p.salt@.len(),
        32,
        KDF_OUTPUT_LENGTH as u32,
    )
}

impl AesKdf {
    /// Always fails: AES-KDF derivation is deliberately not implemented.
    pub fn derive(&self, composite_key: &CompositeKey) -> (r: Result<TransformedKey, CryptoError>)
        ensures
            r == Err::<TransformedKey, CryptoError>(CryptoError::KdfNotImplemented),
    {
        Err(CryptoError::KdfNotImplemented)
    }
}

impl Argon2 {
    /// Stretches `composite_key` into a 32-byte transformed key.
    pub fn derive(&self, composite_key: &CompositeKey) -> (r: Result<TransformedKey, CryptoError>)
        ensures
            match r {
                Ok(t) => t.key@ == argon2_key(self, composite_key.key@),
                Err(e) => e is Argon2Error,
            },
            r is Ok <==> argon2_accepts_params(self),
    {
        let hash = match argon2_hash_raw(
            &composite_key.key,
            self.salt.as_slice(),
            self.variant,
            self.version,
            self.mem_cost,
            self.time_cost,
            self.lanes,
            KDF_OUTPUT_LENGTH as u32,
        ) {
            Ok(h) => h,
            Err(e) => return Err(CryptoError::Argon2Error(e)),
        };
        let mut key = [0u8; 32];
        let mut i: usize = 0;
        while i < 32
            invariant
                i <= 32,
                hash@.len() == 32,
                forall|j: int| 0 <= j < i ==> key@[j] == hash@[j],
            decreases 32 - i,
        {
            key[i] = hash[i];
            i = i + 1;
        }
        assert(key@ =~= hash@);
        Ok(TransformedKey { key })
    }
}

} // verus!
