//! The outer header: magic and version, the TLV fields, the integrity hash and the
//! HMAC tag, and its validation with a composite key.
use vstd::prelude::*;
use vstd::string::StringSliceAdditionalSpecFns;

use crate::bytes::{bytes_eq, le, read_le, read_u128, read_u32, read_u8, to_vec};
use crate::crypto::{
    calculate_sha256, copy32, hmac_key_of, hmac_sha256_of, sha256_of, verify_hmac_sha256,
    CompositeKey, HmacKey, MasterSeed, TransformedKey, KDF_OUTPUT_LENGTH,
};
use crate::dict::{entries_map, lookup_bytes, lookup_u32, lookup_u64, spec_dict, DictValue, VariantDictionary};
use crate::error::{BinaryParseError, CryptoError};
use crate::kdf::{argon2_accepts, argon2_of, AesKdf, Argon2, ARGON2_VARIANT_D};

verus! {

pub const FILE_MAGIC: u32 = 0x9AA2D903;
pub const FILE_MAGIC_KDBX: u32 = 0xB54BFB67;
/// The major version this reader accepts (the high 16 bits of the version word).
pub const VERSION_MAJOR: u32 = 4;

pub const COMPRESSION_METHOD_NONE: u32 = 0;
pub const COMPRESSION_METHOD_GZIP: u32 = 1;

pub const OUTER_CIPHER_AES128: u128 = 0x35ddf83d563a748dc3416494a105ab61;
pub const OUTER_CIPHER_AES256: u128 = 0xff5afc6a210558be504371bfe6f2c131;
pub const OUTER_CIPHER_TWOFISH: u128 = 0x6c3465f97ad46aa3b94b6f579ff268ad;
pub const OUTER_CIPHER_CHACHA20: u128 = 0x9ab5db319a3324a5b54c6f8b2b8a03d6;

pub const FIELD_END: u8 = 0x00;
pub const FIELD_CIPHER: u8 = 0x02;
pub const FIELD_COMPRESSION_METHOD: u8 = 0x03;
pub const FIELD_MASTER_SEED: u8 = 0x04;
pub const FIELD_ENCRYPTION_IV: u8 = 0x07;
pub const FIELD_KDF_PARAMETERS: u8 = 0x0b;

/// Longest value a header field may declare (8 MiB).
pub const MAX_FIELD_LENGTH: u32 = 0x80_0000;

pub const KDF_AES: u128 = 0x388264004a117d92c04aa77982bb027c;
pub const KDF_ARGON2_D: u128 = 0xc0ae303a4a9f7914b44298cdf6d63ef;

/// The cipher of the encrypted payload.
#[derive(Debug, Clone, Copy, PartialEq, Eq, Structural)]
pub enum OuterCipher {
    AES128,
    AES256,
    TwoFish,
    ChaCha20,
}

/// The compression of the payload.
#[derive(Debug, Clone, Copy, PartialEq, Eq, Structural)]
pub enum CompressionMethod {
    Uncompressed,
    Gzip,
}

/// The cipher that a UUID names.
pub open spec fn cipher_of(uuid: nat) -> Option<OuterCipher> {
    if uuid == OUTER_CIPHER_AES128 {
        Some(OuterCipher::AES128)
    } else if uuid == OUTER_CIPHER_AES256 {
        Some(OuterCipher::AES256)
    } else if uuid == OUTER_CIPHER_TWOFISH {
        Some(OuterCipher::TwoFish)
    } else if uuid == OUTER_CIPHER_CHACHA20 {
        Some(OuterCipher::ChaCha20)
    } else {
        None
    }
}

/// The compression method that a code names.
pub open spec fn compression_of(code: nat) -> Option<CompressionMethod> {
    if code == COMPRESSION_METHOD_NONE {
        Some(CompressionMethod::Uncompressed)
    } else if code == COMPRESSION_METHOD_GZIP {
        Some(CompressionMethod::Gzip)
    } else {
        None
    }
}

impl CompressionMethod {
    /// The compression method of a code; an unknown code is an error.
    pub fn try_from(value: u32) -> (r: Result<CompressionMethod, BinaryParseError>)
        ensures
            r == match compression_of(value as nat) {
                Some(c) => Ok::<CompressionMethod, BinaryParseError>(c),
                None => Err(
                    BinaryParseError::UnknownFieldValue {
                        field: "CompressionMethod",
                        value: value as u128,
                    },
                ),
            },
    {
        if value == COMPRESSION_METHOD_NONE {
            Ok(CompressionMethod::Uncompressed)
        } else if value == COMPRESSION_METHOD_GZIP {
            Ok(CompressionMethod::Gzip)
        } else {
            Err(BinaryParseError::UnknownFieldValue { field: "CompressionMethod", value: value as u128 })
        }
    }
}

impl OuterCipher {
    /// The cipher of a UUID; an unknown UUID is an error.
    pub fn try_from(value: u128) -> (r: Result<OuterCipher, BinaryParseError>)
        ensures
            r == match cipher_of(value as nat) {
                Some(c) => Ok::<OuterCipher, BinaryParseError>(c),
                None => Err(BinaryParseError::UnknownFieldValue { field: "OuterCipher", value }),
            },
    {
        if value == OUTER_CIPHER_AES128 {
            Ok(OuterCipher::AES128)
        } else if value == OUTER_CIPHER_AES256 {
            Ok(OuterCipher::AES256)
        } else if value == OUTER_CIPHER_TWOFISH {
            Ok(OuterCipher::TwoFish)
        } else if value == OUTER_CIPHER_CHACHA20 {
            Ok(OuterCipher::ChaCha20)
        } else {
            Err(BinaryParseError::UnknownFieldValue { field: "OuterCipher", value })
        }
    }
}

/// One TLV field read from the start of `s`: `None` for the terminator, whose padding
/// is consumed, else its type and declared length; and the number of bytes read.
pub open spec fn spec_header_field(s: Seq<u8>) -> Result<(Option<(u8, u32)>, nat), BinaryParseError> {
    if s.len() < 5 {
        Err(BinaryParseError::UnexpectedEof)
    } else if s[0] == FIELD_END {
        if s.len() < 5 + le(s.subrange(1, 5)) {
            Err(BinaryParseError::UnexpectedEof)
        } else {
            Ok((None, 5 + le(s.subrange(1, 5))))
        }
    } else {
        Ok((Some((s[0], le(s.subrange(1, 5)) as u32)), 5))
    }
}

/// Reads one TLV field at `pos`.
pub fn parse_header_field(data: &[u8], pos: usize) -> (r: Result<
    (Option<(u8, u32)>, usize),
    BinaryParseError,
>)
    requires
        pos <= data@.len(),
    ensures
        match spec_header_field(data@.subrange(pos as int, data@.len() as int)) {
            Ok((f, n)) => r == Ok::<(Option<(u8, u32)>, usize), BinaryParseError>((f, n as usize)),
            Err(e) => r == Err::<(Option<(u8, u32)>, usize), BinaryParseError>(e),
        },
{
    let s = vstd::slice::slice_subrange(data, pos, data.len());
    let field_type = match read_u8(s, 0) {
        Some(t) => t,
        None => return Err(BinaryParseError::UnexpectedEof),
    };
    let length = match read_u32(s, 1) {
        Some(l) => l,
        None => return Err(BinaryParseError::UnexpectedEof),
    };
    if field_type == FIELD_END {
        if length as usize > s.len() - 5 {
            return Err(BinaryParseError::UnexpectedEof);
        }
        Ok((None, 5 + length as usize))
    } else {
        Ok((Some((field_type, length)), 5))
    }
}

/// The header fields gathered so far.
pub struct HeaderFields {
    pub cipher: Option<OuterCipher>,
    pub compression: Option<CompressionMethod>,
    pub master_seed: Option<Seq<u8>>,
    pub kdf_parameters: Option<Map<Seq<u8>, DictValue>>,
}

/// No field gathered yet.
pub open spec fn no_fields() -> HeaderFields {
    HeaderFields { cipher: None, compression: None, master_seed: None, kdf_parameters: None }
}

/// The fields after a field of type `t` with value bytes `v`; unknown types change nothing.
pub open spec fn spec_apply_field(t: u8, v: Seq<u8>, acc: HeaderFields) -> Result<HeaderFields, BinaryParseError> {
    if t == FIELD_CIPHER {
        if v.len() < 16 {
            Err(BinaryParseError::UnexpectedEof)
        } else {
            match cipher_of(le(v.subrange(0, 16))) {
                Some(c) => Ok(HeaderFields { cipher: Some(c), ..acc }),
                None => Err(
                    BinaryParseError::UnknownFieldValue {
                        field: "OuterCipher",
                        value: le(v.subrange(0, 16)) as u128,
                    },
                ),
            }
        }
    } else if t == FIELD_COMPRESSION_METHOD {
        if v.len() < 4 {
            Err(BinaryParseError::UnexpectedEof)
        } else {
            match compression_of(le(v.subrange(0, 4))) {
                Some(c) => Ok(HeaderFields { compression: Some(c), ..acc }),
                None => Err(
                    BinaryParseError::UnknownFieldValue {
                        field: "CompressionMethod",
                        value: le(v.subrange(0, 4)) as u128,
                    },
                ),
            }
        }
    } else if t == FIELD_MASTER_SEED {
        if v.len() < 16 {
            Err(BinaryParseError::UnexpectedEof)
        } else {
            Ok(HeaderFields { master_seed: Some(v.subrange(0, 16)), ..acc })
        }
    } else if t == FIELD_KDF_PARAMETERS {
        match spec_dict(v) {
            Ok(es) => Ok(HeaderFields { kdf_parameters: Some(entries_map(es)), ..acc }),
            Err(e) => Err(e),
        }
    } else {
        Ok(acc)
    }
}

/// The fields read from the start of `s` up to and including the terminator, starting
/// from `acc`, and the number of bytes read.
pub open spec fn spec_fields(s: Seq<u8>, acc: HeaderFields) -> Result<(HeaderFields, nat), BinaryParseError>
    decreases s.len(),
{
    match spec_header_field(s) {
        Err(e) => Err(e),
        Ok((None, n)) => Ok((acc, n)),
        Ok((Some((t, len)), _)) => {
            if len > MAX_FIELD_LENGTH {
                Err(BinaryParseError::FieldTooLarge(len))
            } else if s.len() < 5 + len {
                Err(BinaryParseError::UnexpectedEof)
            } else {
                match spec_apply_field(t, s.subrange(5, 5 + len), acc) {
                    Err(e) => Err(e),
                    Ok(next) => match spec_fields(s.subrange(5 + len, s.len() as int), next) {
                        Err(e) => Err(e),
                        Ok((f, m)) => Ok((f, (5 + len + m) as nat)),
                    },
                }
            }
        }
    }
}

/// What a parsed, not yet authenticated header holds.
pub struct HeaderModel {
    pub header_length: nat,
    pub body_start_at: nat,
    pub cipher: OuterCipher,
    pub compression: CompressionMethod,
    pub master_seed: Seq<u8>,
    pub kdf_parameters: Map<Seq<u8>, DictValue>,
    pub hmac_tag: Seq<u8>,
}

/// The header at the start of `d`: magic and version, fields up to the terminator
/// (whose end is the header length), all four required fields present, then the
/// integrity hash over the header and the HMAC tag.
pub open spec fn spec_parse_header(d: Seq<u8>) -> Result<HeaderModel, BinaryParseError> {
    if d.len() < 4 {
        Err(BinaryParseError::UnexpectedEof)
    } else if le(d.subrange(0, 4)) != FILE_MAGIC {
        Err(BinaryParseError::NotKdbFile { magic: le(d.subrange(0, 4)) as u32 })
    } else if d.len() < 12 {
        Err(BinaryParseError::UnexpectedEof)
    } else if le(d.subrange(4, 8)) != FILE_MAGIC_KDBX || le(d.subrange(8, 12)) / 0x1_0000
        != VERSION_MAJOR {
        Err(
            BinaryParseError::UnsupportedVersion {
                magic: le(d.subrange(4, 8)) as u32,
                version: le(d.subrange(8, 12)) as u32,
            },
        )
    } else {
        match spec_fields(d.subrange(12, d.len() as int), no_fields()) {
            Err(e) => Err(e),
            Ok((f, n)) => {
                let hl = 12 + n as int;
                if f.cipher is None {
                    Err(BinaryParseError::FieldNotFound("Cipher"))
                } else if f.compression is None {
                    Err(BinaryParseError::FieldNotFound("CompressionMethod"))
                } else if f.master_seed is None {
                    Err(BinaryParseError::FieldNotFound("MasterSeed"))
                } else if f.kdf_parameters is None {
                    Err(BinaryParseError::FieldNotFound("KdfParameters"))
                } else if d.len() < hl + 32 {
                    Err(BinaryParseError::UnexpectedEof)
                } else if d.subrange(hl, hl + 32) != sha256_of(d.subrange(0, hl)) {
                    Err(BinaryParseError::ValidationError)
                } else if d.len() < hl + 64 {
                    Err(BinaryParseError::UnexpectedEof)
                } else {
                    Ok(
                        HeaderModel {
                            header_length: hl as nat,
                            body_start_at: (hl + 64) as nat,
                            cipher: f.cipher->Some_0,
                            compression: f.compression->Some_0,
                            master_seed: f.master_seed->Some_0,
                            kdf_parameters: f.kdf_parameters->Some_0,
                            hmac_tag: d.subrange(hl + 32, hl + 64),
                        },
                    )
                }
            },
        }
    }
}

/// The header fields being gathered.
struct FieldsState {
    cipher: Option<OuterCipher>,
    compression: Option<CompressionMethod>,
    master_seed: Option<MasterSeed>,
    kdf_parameters: Option<VariantDictionary>,
}

impl View for FieldsState {
    type V = HeaderFields;

    closed spec fn view(&self) -> HeaderFields {
        HeaderFields {
            cipher: self.cipher,
            compression: self.compression,
            master_seed: match self.master_seed {
                Some(s) => Some(s.0@),
                None => None,
            },
            kdf_parameters: match self.kdf_parameters {
                Some(d) => Some(d@),
                None => None,
            },
        }
    }
}

/// Records a field of type `t` with value bytes `v`.
fn apply_field(t: u8, v: &[u8], st: FieldsState) -> (r: Result<FieldsState, BinaryParseError>)
    ensures
        match spec_apply_field(t, v@, st@) {
            Ok(f) => r matches Ok(x) && x@ == f,
            Err(e) => r == Err::<FieldsState, BinaryParseError>(e),
        },
{
    let mut st = st;
    if t == FIELD_CIPHER {
        let uuid = match read_u128(v, 0) {
            Some(u) => u,
            None => return Err(BinaryParseError::UnexpectedEof),
        };
        match OuterCipher::try_from(uuid) {
            Ok(c) => st.cipher = Some(c),
            Err(e) => return Err(e),
        }
    } else if t == FIELD_COMPRESSION_METHOD {
        let code = match read_u32(v, 0) {
            Some(c) => c,
            None => return Err(BinaryParseError::UnexpectedEof),
        };
        match CompressionMethod::try_from(code) {
            Ok(c) => st.compression = Some(c),
            Err(e) => return Err(e),
        }
    } else if t == FIELD_MASTER_SEED {
        match MasterSeed::read_from(v, 0) {
            Ok(s) => st.master_seed = Some(s),
            Err(e) => return Err(e),
        }
    } else if t == FIELD_KDF_PARAMETERS {
        match VariantDictionary::parse(v) {
            Ok(d) => st.kdf_parameters = Some(d),
            Err(e) => return Err(e),
        }
    }
    Ok(st)
}

/// Reads the fields from `pos` 12 up to and including the terminator, returning them
/// and the offset just after the terminator's padding.
fn read_fields(data: &[u8]) -> (r: Result<(FieldsState, usize), BinaryParseError>)
    requires
        12 <= data@.len(),
    ensures
        match spec_fields(data@.subrange(12, data@.len() as int), no_fields()) {
            Ok((f, n)) => r matches Ok((x, hl)) && x@ == f && hl == 12 + n,
            Err(e) => r == Err::<(FieldsState, usize), BinaryParseError>(e),
        },
{
    let ghost total = spec_fields(data@.subrange(12, data@.len() as int), no_fields());
    let mut st = FieldsState { cipher: None, compression: None, master_seed: None, kdf_parameters: None };
    let mut pos: usize = 12;
    assert(st@ == no_fields());
    loop
        invariant
            12 <= pos <= data.len(),
            total == spec_fields(data@.subrange(12, data@.len() as int), no_fields()),
            total == match spec_fields(data@.subrange(pos as int, data@.len() as int), st@) {
                Ok((f, m)) => Ok::<(HeaderFields, nat), BinaryParseError>((f, (pos - 12 + m) as nat)),
                Err(e) => Err(e),
            },
        decreases data@.len() - pos,
    {
        let ghost s = data@.subrange(pos as int, data@.len() as int);
        let (field, n) = match parse_header_field(data, pos) {
            Ok(x) => x,
            Err(e) => return Err(e),
        };
        proof {
            assert(n <= s.len());
        }
        match field {
            None => {
                return Ok((st, pos + n));
            },
            Some((t, length)) => {
                if length > MAX_FIELD_LENGTH {
                    return Err(BinaryParseError::FieldTooLarge(length));
                }
                let start: usize = pos + 5;
                if length as usize > data.len() - start {
                    return Err(BinaryParseError::UnexpectedEof);
                }
                let end: usize = start + length as usize;
                let v = vstd::slice::slice_subrange(data, start, end);
                proof {
                    assert(s.subrange(5, 5 + length) =~= v@);
                    assert(s.subrange(5 + length, s.len() as int) =~= data@.subrange(
                        end as int,
                        data@.len() as int,
                    ));
                }
                st = match apply_field(t, v, st) {
                    Ok(x) => x,
                    Err(e) => return Err(e),
                };
                pos = end;
            },
        }
    }
}

/// A parsed header whose integrity hash has been checked but whose HMAC tag has not.
#[derive(Debug)]
pub struct OuterHeader {
    header_length: usize,
    body_start_at: usize,
    cipher: OuterCipher,
    compression: CompressionMethod,
    master_seed: MasterSeed,
    kdf_parameters: VariantDictionary,
    hmac_tag: [u8; 32],
}

impl View for OuterHeader {
    type V = HeaderModel;

    closed spec fn view(&self) -> HeaderModel {
        HeaderModel {
            header_length: self.header_length as nat,
            body_start_at: self.body_start_at as nat,
            cipher: self.cipher,
            compression: self.compression,
            master_seed: self.master_seed.0@,
            kdf_parameters: self.kdf_parameters@,
            hmac_tag: self.hmac_tag@,
        }
    }
}

impl OuterHeader {
    /// Parses the header at the start of `data` and checks its integrity hash.
    pub fn parse(data: &[u8]) -> (r: Result<OuterHeader, BinaryParseError>)
        ensures
            match spec_parse_header(data@) {
                Ok(h) => r matches Ok(x) && x@ == h,
                Err(e) => r == Err::<OuterHeader, BinaryParseError>(e),
            },
    {
        let magic = match read_u32(data, 0) {
            Some(m) => m,
            None => return Err(BinaryParseError::UnexpectedEof),
        };
        if magic != FILE_MAGIC {
            return Err(BinaryParseError::NotKdbFile { magic });
        }
        let magic = match read_u32(data, 4) {
            Some(m) => m,
            None => return Err(BinaryParseError::UnexpectedEof),
        };
        let version = match read_u32(data, 8) {
            Some(v) => v,
            None => return Err(BinaryParseError::UnexpectedEof),
        };
        if magic != FILE_MAGIC_KDBX || version / 0x1_0000 != VERSION_MAJOR {
            return Err(BinaryParseError::UnsupportedVersion { magic, version });
        }
        let (st, header_length) = match read_fields(data) {
            Ok(x) => x,
            Err(e) => return Err(e),
        };
        let cipher = match st.cipher {
            Some(c) => c,
            None => return Err(BinaryParseError::FieldNotFound("Cipher")),
        };
        let compression = match st.compression {
            Some(c) => c,
            None => return Err(BinaryParseError::FieldNotFound("CompressionMethod")),
        };
        let master_seed = match st.master_seed {
            Some(s) => s,
            None => return Err(BinaryParseError::FieldNotFound("MasterSeed")),
        };
        let kdf_parameters = match st.kdf_parameters {
            Some(d) => d,
            None => return Err(BinaryParseError::FieldNotFound("KdfParameters")),
        };
        let hash_actual = match calculate_sha256(data, header_length) {
            Ok(h) => h,
            Err(e) => return Err(e),
        };
        if data.len() - header_length < 32 {
            return Err(BinaryParseError::UnexpectedEof);
        }
        let hash_record = vstd::slice::slice_subrange(data, header_length, header_length + 32);
        if !bytes_eq(&hash_actual, hash_record) {
            return Err(BinaryParseError::ValidationError);
        }
        if data.len() - header_length < 64 {
            return Err(BinaryParseError::UnexpectedEof);
        }
        let hmac_tag = copy32(data, header_length + 32);
        Ok(OuterHeader {
            header_length,
            body_start_at: header_length + 64,
            cipher,
            compression,
            master_seed,
            kdf_parameters,
            hmac_tag,
        })
    }
}

/// Key-derivation parameters as the dictionary gives them.
pub enum KdfParams {
    Aes { seed: Seq<u8>, iterations: u64 },
    Argon2 { version: u32, salt: Seq<u8>, time_cost: u32, mem_cost: u32, lanes: u32 },
}

/// The key-derivation parameters held in the dictionary `m`: the function is chosen by
/// the little-endian UUID under `$UUID`; Argon2d reads `V`, `S`, `I`, `M` (bytes,
/// turned into KiB by integer division) and `P`; AES-KDF reads `S` and `R`.
pub open spec fn spec_kdf(m: Map<Seq<u8>, DictValue>) -> Result<KdfParams, BinaryParseError> {
    match lookup_bytes(m, "$UUID".spec_bytes()) {
        None => Err(BinaryParseError::FieldNotFound("KDF.$UUID")),
        Some(b) => if b.len() < 16 {
            Err(BinaryParseError::UnknownFieldValue { field: "$UUID", value: le(b) as u128 })
        } else if le(b.subrange(0, 16)) == KDF_AES {
            match (lookup_bytes(m, "S".spec_bytes()), lookup_u64(m, "R".spec_bytes())) {
                (None, _) => Err(BinaryParseError::FieldNotFound("KDF.S")),
                (Some(_), None) => Err(BinaryParseError::FieldNotFound("KDF.R")),
                (Some(seed), Some(iterations)) => Ok(KdfParams::Aes { seed, iterations }),
            }
        } else if le(b.subrange(0, 16)) == KDF_ARGON2_D {
            let v = lookup_u32(m, "V".spec_bytes());
            let s = lookup_bytes(m, "S".spec_bytes());
            let i = lookup_u64(m, "I".spec_bytes());
            let mem = lookup_u64(m, "M".spec_bytes());
            let p = lookup_u32(m, "P".spec_bytes());
            if v is None {
                Err(BinaryParseError::FieldNotFound("KDF.V"))
            } else if s is None {
                Err(BinaryParseError::FieldNotFound("KDF.S"))
            } else if i is None {
                Err(BinaryParseError::FieldNotFound("KDF.I"))
            } else if i->Some_0 > u32::MAX {
                Err(
                    BinaryParseError::UnknownFieldValue {
                        field: "KDF.I",
                        value: i->Some_0 as u128,
                    },
                )
            } else if mem is None {
                Err(BinaryParseError::FieldNotFound("KDF.M"))
            } else if mem->Some_0 / 1024 > u32::MAX {
                Err(
                    BinaryParseError::UnknownFieldValue {
                        field: "KDF.M",
                        value: mem->Some_0 as u128,
                    },
                )
            } else if p is None {
                Err(BinaryParseError::FieldNotFound("KDF.P"))
            } else {
                Ok(
                    KdfParams::Argon2 {
                        version: v->Some_0,
                        salt: s->Some_0,
                        time_cost: i->Some_0 as u32,
                        mem_cost: (mem->Some_0 / 1024) as u32,
                        lanes: p->Some_0,
                    },
                )
            }
        } else {
            Err(
                BinaryParseError::UnknownFieldValue {
                    field: "$UUID",
                    value: le(b.subrange(0, 16)) as u128,
                },
            )
        },
    }
}

/// The key-derivation function of a header, with its parameters.
#[derive(Debug)]
pub enum KdfMethod {
    Aes(AesKdf),
    Argon2(Argon2),
}

impl View for KdfMethod {
    type V = KdfParams;

    open spec fn view(&self) -> KdfParams {
        match self {
            KdfMethod::Aes(a) => KdfParams::Aes { seed: a.seed@, iterations: a.iterations },
            KdfMethod::Argon2(a) => KdfParams::Argon2 {
                version: a.version,
                salt: a.salt@,
                time_cost: a.time_cost,
                mem_cost: a.mem_cost,
                lanes: a.lanes,
            },
        }
    }
}

impl KdfMethod {
    /// Whether an Argon2 configuration is of the Argon2d variant, the one this format uses.
    pub open spec fn is_argon2d(&self) -> bool {
        self matches KdfMethod::Argon2(a) ==> a.variant == ARGON2_VARIANT_D
    }

    /// Selects the key-derivation function and reads its parameters from `dict`.
    pub fn try_from(dict: &VariantDictionary) -> (r: Result<KdfMethod, BinaryParseError>)
        ensures
            match spec_kdf(dict@) {
                Ok(p) => r matches Ok(k) && k@ == p && k.is_argon2d(),
                Err(e) => r == Err::<KdfMethod, BinaryParseError>(e),
            },
    {
        let uuid_bytes = match dict.get_bytes("$UUID") {
            Some(b) => b,
            None => return Err(BinaryParseError::FieldNotFound("KDF.$UUID")),
        };
        if uuid_bytes.len() < 16 {
            proof {
                assert(uuid_bytes@.subrange(0, uuid_bytes@.len() as int) =~= uuid_bytes@);
            }
            return match read_le(uuid_bytes, 0, uuid_bytes.len()) {
                Some(v) => Err(BinaryParseError::UnknownFieldValue { field: "$UUID", value: v }),
                None => Err(BinaryParseError::UnexpectedEof),
            };
        }
        let uuid = match read_u128(uuid_bytes, 0) {
            Some(u) => u,
            None => return Err(BinaryParseError::UnexpectedEof),
        };
        if uuid == KDF_AES {
            let seed = match dict.get_bytes("S") {
                Some(s) => to_vec(s),
                None => return Err(BinaryParseError::FieldNotFound("KDF.S")),
            };
            let iterations = match dict.get_u64("R") {
                Some(n) => n,
                None => return Err(BinaryParseError::FieldNotFound("KDF.R")),
            };
            Ok(KdfMethod::Aes(AesKdf { seed, iterations }))
        } else if uuid == KDF_ARGON2_D {
            let version = match dict.get_u32("V") {
                Some(v) => v,
                None => return Err(BinaryParseError::FieldNotFound("KDF.V")),
            };
            let salt = match dict.get_bytes("S") {
                Some(s) => to_vec(s),
                None => return Err(BinaryParseError::FieldNotFound("KDF.S")),
            };
            let time_cost = match dict.get_u64("I") {
                Some(i) => {
                    if i > u32::MAX as u64 {
                        return Err(
                            BinaryParseError::UnknownFieldValue { field: "KDF.I", value: i as u128 },
                        );
                    }
                    i as u32
                },
                None => return Err(BinaryParseError::FieldNotFound("KDF.I")),
            };
            let mem_cost = match dict.get_u64("M") {
                Some(bytes) => {
                    if bytes / 1024 > u32::MAX as u64 {
                        return Err(
                            BinaryParseError::UnknownFieldValue {
                                field: "KDF.M",
                                value: bytes as u128,
                            },
                        );
                    }
                    (bytes / 1024) as u32
                },
                None => return Err(BinaryParseError::FieldNotFound("KDF.M")),
            };
            let lanes = match dict.get_u32("P") {
                Some(p) => p,
                None => return Err(BinaryParseError::FieldNotFound("KDF.P")),
            };
            Ok(
                KdfMethod::Argon2(
                    Argon2 { variant: ARGON2_VARIANT_D, version, salt, time_cost, mem_cost, lanes },
                ),
            )
        } else {
            Err(BinaryParseError::UnknownFieldValue { field: "$UUID", value: uuid })
        }
    }
}

/// What an authenticated header holds.
pub struct ValidatedModel {
    pub body_start_at: nat,
    pub cipher: OuterCipher,
    pub compression: CompressionMethod,
    pub master_seed: Seq<u8>,
}

/// A header whose HMAC tag has been verified: safe to hand to payload decryption.
#[derive(Debug)]
pub struct ValidatedOuterHeader {
    pub body_start_at: usize,
    pub cipher: OuterCipher,
    pub compression: CompressionMethod,
    pub master_seed: MasterSeed,
}

impl View for ValidatedOuterHeader {
    type V = ValidatedModel;

    open spec fn view(&self) -> ValidatedModel {
        ValidatedModel {
            body_start_at: self.body_start_at as nat,
            cipher: self.cipher,
            compression: self.compression,
            master_seed: self.master_seed.0@,
        }
    }
}

/// The outcome of a validation, over the models.
pub open spec fn outcome(r: Result<ValidatedOuterHeader, BinaryParseError>) -> Result<
    ValidatedModel,
    BinaryParseError,
> {
    match r {
        Ok(v) => Ok(v@),
        Err(e) => Err(e),
    }
}

/// Authenticating header `h`, read from `d`, with transformed key `tk`: the HMAC-SHA256
/// tag of the header bytes under the HMAC key must equal the stored tag.
pub open spec fn spec_authenticate(h: HeaderModel, d: Seq<u8>, tk: Seq<u8>) -> Result<
    ValidatedModel,
    BinaryParseError,
> {
    if d.len() < h.header_length {
        Err(BinaryParseError::UnexpectedEof)
    } else if hmac_sha256_of(
        hmac_key_of(h.master_seed, tk),
        d.subrange(0, h.header_length as int),
    ) == h.hmac_tag {
        Ok(
            ValidatedModel {
                body_start_at: h.body_start_at,
                cipher: h.cipher,
                compression: h.compression,
                master_seed: h.master_seed,
            },
        )
    } else {
        Err(BinaryParseError::AuthenticationError)
    }
}

impl OuterHeader {
    /// Verifies the header's HMAC tag over its bytes in `data` with the transformed key.
    pub fn authenticate(&self, data: &[u8], transformed_key: &TransformedKey) -> (r: Result<
        ValidatedOuterHeader,
        BinaryParseError,
    >)
        ensures
            outcome(r) == spec_authenticate(self@, data@, transformed_key.key@),
    {
        let hmac_key = HmacKey::new(&self.master_seed, transformed_key);
        match verify_hmac_sha256(data, self.header_length, &hmac_key, &self.hmac_tag) {
            Ok(true) => Ok(
                ValidatedOuterHeader {
                    body_start_at: self.body_start_at,
                    cipher: self.cipher,
                    compression: self.compression,
                    master_seed: self.master_seed,
                },
            ),
            Ok(false) => Err(BinaryParseError::AuthenticationError),
            Err(e) => Err(e),
        }
    }

    /// Derives the transformed key from `composite_key` with the header's key-derivation
    /// parameters, then authenticates the header with it.
    pub fn validate(self, data: &[u8], composite_key: CompositeKey) -> (r: Result<
        ValidatedOuterHeader,
        BinaryParseError,
    >)
        ensures
            match spec_kdf(self@.kdf_parameters) {
                Err(e) => r == Err::<ValidatedOuterHeader, BinaryParseError>(e),
                Ok(KdfParams::Aes { .. }) => r == Err::<ValidatedOuterHeader, BinaryParseError>(
                    BinaryParseError::CryptoError(CryptoError::KdfNotImplemented),
                ),
                Ok(KdfParams::Argon2 { version, salt, time_cost, mem_cost, lanes }) => {
                    if argon2_accepts(
                        ARGON2_VARIANT_D,
                        version,
                        mem_cost,
                        time_cost,
                        lanes,
                        salt.len(),
                        32,
                        KDF_OUTPUT_LENGTH as u32,
                    ) {
                        outcome(r) == spec_authenticate(
                            self@,
                            data@,
                            argon2_of(
                                composite_key.key@,
                                salt,
                                ARGON2_VARIANT_D,
                                version,
                                mem_cost,
                                time_cost,
                                lanes,
                                KDF_OUTPUT_LENGTH as u32,
                            ),
                        )
                    } else {
                        r matches Err(BinaryParseError::CryptoError(CryptoError::Argon2Error(_)))
                    }
                },
            },
    {
        let kdf = match KdfMethod::try_from(&self.kdf_parameters) {
            Ok(k) => k,
            Err(e) => return Err(e),
        };
        let derived = match &kdf {
            KdfMethod::Aes(m) => m.derive(&composite_key),
            KdfMethod::Argon2(m) => m.derive(&composite_key),
        };
        let transformed_key = match derived {
            Ok(t) => t,
            Err(e) => return Err(BinaryParseError::CryptoError(e)),
        };
        self.authenticate(data, &transformed_key)
    }

    /// The number of header bytes, up to the end of the terminator field.
    pub fn header_length(&self) -> (r: usize)
        ensures
            r == self@.header_length,
    {
        self.header_length
    }

    /// The offset at which the encrypted payload begins.
    pub fn body_start_at(&self) -> (r: usize)
        ensures
            r == self@.body_start_at,
    {
        self.body_start_at
    }

    /// The payload cipher.
    pub fn cipher(&self) -> (r: OuterCipher)
        ensures
            r == self@.cipher,
    {
        self.cipher
    }

    /// The payload compression.
    pub fn compression(&self) -> (r: CompressionMethod)
        ensures
            r == self@.compression,
    {
        self.compression
    }

    /// The key-derivation parameters.
    pub fn kdf_parameters(&self) -> (r: &VariantDictionary)
        ensures
            r@ == self@.kdf_parameters,
    {
        &self.kdf_parameters
    }
}

/// A first word other than the file magic ends parsing with `NotKdbFile` carrying that
/// word, whatever follows it.
pub proof fn lemma_wrong_magic_rejected(d: Seq<u8>)
    requires
        d.len() >= 4,
        le(d.subrange(0, 4)) != FILE_MAGIC,
    ensures
        spec_parse_header(d) == Err::<HeaderModel, BinaryParseError>(
            BinaryParseError::NotKdbFile { magic: le(d.subrange(0, 4)) as u32 },
        ),
{
}

/// Whether the first `off` bytes of `s` are complete non-terminator fields, each within
/// the length bound and accepted, read starting from the fields `acc`.
pub open spec fn accepted_fields_prefix(s: Seq<u8>, off: nat, acc: HeaderFields) -> bool
    decreases off,
{
    if off == 0 {
        true
    } else if s.len() < 5 || s[0] == FIELD_END {
        false
    } else {
        let len = le(s.subrange(1, 5));
        if len > MAX_FIELD_LENGTH || 5 + len > off || s.len() < 5 + len {
            false
        } else {
            match spec_apply_field(s[0], s.subrange(5, 5 + len as int), acc) {
                Err(_) => false,
                Ok(next) => accepted_fields_prefix(
                    s.subrange(5 + len as int, s.len() as int),
                    (off - 5 - len) as nat,
                    next,
                ),
            }
        }
    }
}

proof fn lemma_oversized_field_after_prefix(s: Seq<u8>, off: nat, acc: HeaderFields)
    requires
        accepted_fields_prefix(s, off, acc),
        s.len() >= off + 5,
        s[off as int] != FIELD_END,
        le(s.subrange(off as int + 1, off as int + 5)) > MAX_FIELD_LENGTH,
    ensures
        spec_fields(s, acc) == Err::<(HeaderFields, nat), BinaryParseError>(
            BinaryParseError::FieldTooLarge(le(s.subrange(off as int + 1, off as int + 5)) as u32),
        ),
    decreases off,
{
    crate::bytes::lemma_le_bound(s.subrange(1, 5));
    crate::bytes::lemma_pow256_values();
    if off > 0 {
        let len = le(s.subrange(1, 5));
        let rest = s.subrange(5 + len as int, s.len() as int);
        let off2 = (off - 5 - len) as nat;
        assert(rest[off2 as int] == s[off as int]);
        assert(rest.subrange(off2 as int + 1, off2 as int + 5) =~= s.subrange(off as int + 1, off as int + 5));
        lemma_oversized_field_after_prefix(rest, off2, spec_apply_field(s[0], s.subrange(5, 5 + len as int), acc)->Ok_0);
    }
}

/// After a valid magic and version and any run of accepted fields, a field (not the
/// terminator) that declares more than 8 MiB ends parsing with `FieldTooLarge`, before
/// its value is read.
pub proof fn lemma_oversized_field_rejected(d: Seq<u8>, off: nat)
    requires
        d.len() >= 12 + off + 5,
        le(d.subrange(0, 4)) == FILE_MAGIC,
        le(d.subrange(4, 8)) == FILE_MAGIC_KDBX,
        le(d.subrange(8, 12)) / 0x1_0000 == VERSION_MAJOR,
        accepted_fields_prefix(d.subrange(12, d.len() as int), off, no_fields()),
        d[12 + off as int] != FIELD_END,
        le(d.subrange(13 + off as int, 17 + off as int)) > MAX_FIELD_LENGTH,
    ensures
        spec_parse_header(d) == Err::<HeaderModel, BinaryParseError>(
            BinaryParseError::FieldTooLarge(le(d.subrange(13 + off as int, 17 + off as int)) as u32),
        ),
{
    let s = d.subrange(12, d.len() as int);
    assert(s[off as int] == d[12 + off as int]);
    assert(s.subrange(off as int + 1, off as int + 5) =~= d.subrange(13 + off as int, 17 + off as int));
    lemma_oversized_field_after_prefix(s, off, no_fields());
}

/// With all required fields present, a stored integrity hash that differs from the
/// SHA-256 of the header bytes ends parsing with `ValidationError`. Parsing takes no
/// password, so this holds whichever password is later supplied.
pub proof fn lemma_corrupt_hash_rejected(d: Seq<u8>)
    requires
        d.len() >= 12,
        le(d.subrange(0, 4)) == FILE_MAGIC,
        le(d.subrange(4, 8)) == FILE_MAGIC_KDBX,
        le(d.subrange(8, 12)) / 0x1_0000 == VERSION_MAJOR,
        spec_fields(d.subrange(12, d.len() as int), no_fields()) matches Ok((f, n)) && {
            let hl = 12 + n as int;
            &&& f.cipher is Some
            &&& f.compression is Some
            &&& f.master_seed is Some
            &&& f.kdf_parameters is Some
            &&& d.len() >= hl + 32
            &&& d.subrange(hl, hl + 32) != sha256_of(d.subrange(0, hl))
        },
    ensures
        spec_parse_header(d) == Err::<HeaderModel, BinaryParseError>(
            BinaryParseError::ValidationError,
        ),
{
}

/// A parsed header lies as the format says: its integrity hash right after the header
/// bytes, the HMAC tag after that, and the body 64 bytes after the header's end.
pub proof fn lemma_parsed_layout(d: Seq<u8>)
    requires
        spec_parse_header(d) is Ok,
    ensures
        ({
            let h = spec_parse_header(d)->Ok_0;
            let hl = h.header_length as int;
            &&& h.body_start_at == h.header_length + 64
            &&& d.len() >= hl + 64
            &&& d.subrange(hl, hl + 32) == sha256_of(d.subrange(0, hl))
            &&& h.hmac_tag == d.subrange(hl + 32, hl + 64)
        }),
{
}

/// With the transformed key of the right password (the HMAC tag of the header bytes
/// under its HMAC key is the stored tag), authentication succeeds, and the body starts
/// 64 bytes after the end of the header.
pub proof fn lemma_correct_key_authenticates(d: Seq<u8>, tk: Seq<u8>)
    requires
        spec_parse_header(d) is Ok,
        ({
            let h = spec_parse_header(d)->Ok_0;
            hmac_sha256_of(hmac_key_of(h.master_seed, tk), d.subrange(0, h.header_length as int))
                == h.hmac_tag
        }),
    ensures
        ({
            let h = spec_parse_header(d)->Ok_0;
            spec_authenticate(h, d, tk) == Ok::<ValidatedModel, BinaryParseError>(
                ValidatedModel {
                    body_start_at: h.header_length + 64,
                    cipher: h.cipher,
                    compression: h.compression,
                    master_seed: h.master_seed,
                },
            )
        }),
{
    lemma_parsed_layout(d);
}

/// With a transformed key whose HMAC tag does not match, the header still parses
/// (its integrity hash does not depend on the password) and authentication fails with
/// `AuthenticationError`, never with `ValidationError`.
pub proof fn lemma_wrong_key_fails_authentication(d: Seq<u8>, tk: Seq<u8>)
    requires
        spec_parse_header(d) is Ok,
        ({
            let h = spec_parse_header(d)->Ok_0;
            hmac_sha256_of(hmac_key_of(h.master_seed, tk), d.subrange(0, h.header_length as int))
                != h.hmac_tag
        }),
    ensures
        spec_authenticate(spec_parse_header(d)->Ok_0, d, tk) == Err::<ValidatedModel, BinaryParseError>(
            BinaryParseError::AuthenticationError,
        ),
{
    lemma_parsed_layout(d);
}

/// The Argon2 memory cost is the stored byte count divided by 1024, rounded down.
pub proof fn lemma_memory_cost_in_kib(m: Map<Seq<u8>, DictValue>)
    requires
        spec_kdf(m) matches Ok(KdfParams::Argon2 { .. }),
    ensures
        lookup_u64(m, "M".spec_bytes()) is Some,
        spec_kdf(m)->Ok_0->Argon2_mem_cost as int == lookup_u64(m, "M".spec_bytes())->Some_0 as int / 1024,
{
}

} // verus!
