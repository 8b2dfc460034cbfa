use hmac::{Hmac, Mac, NewMac};
use sha2::{Digest, Sha256, Sha512};

use kdbx::crypto::{calculate_sha256, CompositeKey, HmacKey, MasterSeed, TransformedKey};
use kdbx::error::{BinaryParseError, CryptoError};
use kdbx::outer::{CompressionMethod, KdfMethod, OuterCipher, OuterHeader};
use kdbx::dict::VariantDictionary;

const CHACHA20: u128 = 0x9ab5db319a3324a5b54c6f8b2b8a03d6;
const AES256: u128 = 0xff5afc6a210558be504371bfe6f2c131;
const ARGON2D: u128 = 0xc0ae303a4a9f7914b44298cdf6d63ef;
const AES_KDF: u128 = 0x388264004a117d92c04aa77982bb027c;
const SEED: [u8; 16] = [7; 16];
const SALT: [u8; 32] = [3; 32];
const MEMORY_BYTES: u64 = 64 * 1024;

fn entry(t: u8, key: &str, value: &[u8]) -> Vec<u8> {
    let mut out = vec![t];
    out.extend_from_slice(&(key.len() as u32).to_le_bytes());
    out.extend_from_slice(key.as_bytes());
    out.extend_from_slice(&(value.len() as u32).to_le_bytes());
    out.extend_from_slice(value);
    out
}

fn argon2_dictionary(uuid: u128, time_cost: u64, memory: u64) -> Vec<u8> {
    let mut out = vec![0x00, 0x01];
    out.extend(entry(0x42, "$UUID", &uuid.to_le_bytes()));
    out.extend(entry(0x04, "V", &0x13u32.to_le_bytes()));
    out.extend(entry(0x42, "S", &SALT));
    out.extend(entry(0x05, "I", &time_cost.to_le_bytes()));
    out.extend(entry(0x05, "M", &memory.to_le_bytes()));
    out.extend(entry(0x04, "P", &2u32.to_le_bytes()));
    out.push(0x00);
    out
}

fn field(t: u8, value: &[u8]) -> Vec<u8> {
    let mut out = vec![t];
    out.extend_from_slice(&(value.len() as u32).to_le_bytes());
    out.extend_from_slice(value);
    out
}

fn preamble() -> Vec<u8> {
    let mut out = Vec::new();
    out.extend_from_slice(&0x9AA2D903u32.to_le_bytes());
    out.extend_from_slice(&0xB54BFB67u32.to_le_bytes());
    out.extend_from_slice(&0x0004_0001u32.to_le_bytes());
    out
}

fn header_bytes(cipher: u128, compression: u32, kdf: &[u8]) -> Vec<u8> {
    let mut out = preamble();
    out.extend(field(0x02, &cipher.to_le_bytes()));
    out.extend(field(0x03, &compression.to_le_bytes()));
    out.extend(field(0x04, &SEED));
    out.extend(field(0x07, &[5; 12]));
    out.extend(field(0x0b, kdf));
    out.extend(field(0x00, b"\r\n\r\n"));
    out
}

fn transformed_key(password: &str) -> Vec<u8> {
    let composite = Sha256::digest(&Sha256::digest(password.as_bytes()));
    let config = argon2::Config {
        variant: argon2::Variant::Argon2d,
        version: argon2::Version::Version13,
        mem_cost: (MEMORY_BYTES / 1024) as u32,
        time_cost: 2,
        lanes: 2,
        thread_mode: argon2::ThreadMode::Sequential,
        secret: &[],
        ad: &[],
        hash_length: 32,
    };
    argon2::hash_raw(&composite, &SALT, &config).unwrap()
}

/// A whole file: header, its SHA-256, its HMAC tag under `password`, and a body.
fn file_for(header: &[u8], password: &str) -> Vec<u8> {
    let mut key_input = SEED.to_vec();
    key_input.extend(transformed_key(password));
    key_input.push(0x01);
    let hmac_key = Sha512::digest(&key_input);
    let mut mac = Hmac::<Sha256>::new_from_slice(&hmac_key).unwrap();
    mac.update(header);
    let tag = mac.finalize().into_bytes();
    let mut out = header.to_vec();
    out.extend_from_slice(&Sha256::digest(header));
    out.extend_from_slice(&tag);
    out.extend_from_slice(b"encrypted body");
    out
}

fn sample_file() -> (Vec<u8>, usize) {
    let header = header_bytes(CHACHA20, 1, &argon2_dictionary(ARGON2D, 2, MEMORY_BYTES));
    let len = header.len();
    (file_for(&header, "password"), len)
}

#[test]
fn test_parse_outer_header() {
    let (data, _) = sample_file();
    let header = OuterHeader::parse(&data).unwrap();
    assert_eq!(OuterCipher::ChaCha20, header.cipher());
    assert_eq!(CompressionMethod::Gzip, header.compression());
    let key = CompositeKey::fromPassword("password");
    let validated = header.validate(&data, key).unwrap();
    assert_eq!(validated.cipher, OuterCipher::ChaCha20);
    assert_eq!(validated.compression, CompressionMethod::Gzip);
    assert_eq!(validated.master_seed.0, SEED);
}

#[test]
fn correct_password_gives_body_start_after_hash_and_tag() {
    let (data, header_length) = sample_file();
    let header = OuterHeader::parse(&data).unwrap();
    assert_eq!(header.header_length(), header_length);
    assert_eq!(header.body_start_at(), header_length + 64);
    let validated = header
        .validate(&data, CompositeKey::fromPassword("password"))
        .unwrap();
    assert_eq!(validated.body_start_at, header_length + 64);
    assert_eq!(&data[validated.body_start_at..], b"encrypted body");
}

#[test]
fn wrong_password_fails_authentication_not_validation() {
    let (data, _) = sample_file();
    let header = OuterHeader::parse(&data).unwrap();
    match header.validate(&data, CompositeKey::fromPassword("not the password")) {
        Err(BinaryParseError::AuthenticationError) => {}
        other => panic!("unexpected {:?}", other),
    }
}

#[test]
fn corrupted_integrity_hash_is_a_validation_error() {
    let (mut data, header_length) = sample_file();
    data[header_length + 5] ^= 0x01;
    assert!(matches!(
        OuterHeader::parse(&data),
        Err(BinaryParseError::ValidationError)
    ));
}

#[test]
fn corrupted_header_byte_is_a_validation_error() {
    let (mut data, _) = sample_file();
    // a byte of the encryption IV field, which the parser itself ignores
    data[12 + 21 + 9 + 21 + 6] ^= 0x01;
    assert!(matches!(
        OuterHeader::parse(&data),
        Err(BinaryParseError::ValidationError)
    ));
}

#[test]
fn wrong_file_magic_is_rejected() {
    let (mut data, _) = sample_file();
    data[0] = 0x00;
    match OuterHeader::parse(&data) {
        Err(BinaryParseError::NotKdbFile { magic }) => assert_eq!(magic, 0x9AA2D900),
        other => panic!("unexpected {:?}", other),
    }
    match OuterHeader::parse(&[1, 2, 3, 4]) {
        Err(BinaryParseError::NotKdbFile { magic }) => assert_eq!(magic, 0x04030201),
        other => panic!("unexpected {:?}", other),
    }
}

#[test]
fn unsupported_version_is_rejected() {
    let mut data = preamble();
    data[8..12].copy_from_slice(&0x0003_0001u32.to_le_bytes());
    match OuterHeader::parse(&data) {
        Err(BinaryParseError::UnsupportedVersion { magic, version }) => {
            assert_eq!(magic, 0xB54BFB67);
            assert_eq!(version, 0x0003_0001);
        }
        other => panic!("unexpected {:?}", other),
    }
    let mut data = preamble();
    data[4] = 0x66;
    assert!(matches!(
        OuterHeader::parse(&data),
        Err(BinaryParseError::UnsupportedVersion { magic: 0xB54BFB66, .. })
    ));
}

#[test]
fn nine_mib_field_is_too_large() {
    let mut data = preamble();
    data.push(0x02);
    data.extend_from_slice(&(9 * 1024 * 1024u32).to_le_bytes());
    match OuterHeader::parse(&data) {
        Err(BinaryParseError::FieldTooLarge(n)) => assert_eq!(n, 9 * 1024 * 1024),
        other => panic!("unexpected {:?}", other),
    }
}

#[test]
fn missing_fields_are_named() {
    let mut data = preamble();
    data.extend(field(0x03, &1u32.to_le_bytes()));
    data.extend(field(0x00, &[]));
    assert!(matches!(
        OuterHeader::parse(&data),
        Err(BinaryParseError::FieldNotFound("Cipher"))
    ));
    let mut data = preamble();
    data.extend(field(0x02, &CHACHA20.to_le_bytes()));
    data.extend(field(0x03, &0u32.to_le_bytes()));
    data.extend(field(0x04, &SEED));
    data.extend(field(0x00, &[]));
    assert!(matches!(
        OuterHeader::parse(&data),
        Err(BinaryParseError::FieldNotFound("KdfParameters"))
    ));
}

#[test]
fn unknown_cipher_and_compression_are_rejected() {
    let mut data = preamble();
    data.extend(field(0x02, &5u128.to_le_bytes()));
    match OuterHeader::parse(&data) {
        Err(BinaryParseError::UnknownFieldValue { field, value }) => {
            assert_eq!(field, "OuterCipher");
            assert_eq!(value, 5);
        }
        other => panic!("unexpected {:?}", other),
    }
    let mut data = preamble();
    data.extend(field(0x03, &2u32.to_le_bytes()));
    match OuterHeader::parse(&data) {
        Err(BinaryParseError::UnknownFieldValue { field, value }) => {
            assert_eq!(field, "CompressionMethod");
            assert_eq!(value, 2);
        }
        other => panic!("unexpected {:?}", other),
    }
}

#[test]
fn other_cipher_and_no_compression_parse() {
    let header = header_bytes(AES256, 0, &argon2_dictionary(ARGON2D, 2, MEMORY_BYTES));
    let data = file_for(&header, "pw");
    let parsed = OuterHeader::parse(&data).unwrap();
    assert_eq!(parsed.cipher(), OuterCipher::AES256);
    assert_eq!(parsed.compression(), CompressionMethod::Uncompressed);
}

#[test]
fn truncated_tag_is_rejected() {
    let (data, header_length) = sample_file();
    assert!(matches!(
        OuterHeader::parse(&data[..header_length + 40]),
        Err(BinaryParseError::UnexpectedEof)
    ));
    assert!(matches!(
        OuterHeader::parse(&data[..header_length - 2]),
        Err(BinaryParseError::UnexpectedEof)
    ));
}

#[test]
fn memory_cost_is_converted_to_kib() {
    let d = VariantDictionary::parse(&argon2_dictionary(ARGON2D, 2, 67108864)).unwrap();
    match KdfMethod::try_from(&d).unwrap() {
        KdfMethod::Argon2(a) => {
            assert_eq!(a.mem_cost, 65536);
            assert_eq!(a.time_cost, 2);
            assert_eq!(a.lanes, 2);
            assert_eq!(a.version, 0x13);
            assert_eq!(a.salt, SALT.to_vec());
        }
        other => panic!("unexpected {:?}", other),
    }
    let d = VariantDictionary::parse(&argon2_dictionary(ARGON2D, 2, 2047)).unwrap();
    match KdfMethod::try_from(&d).unwrap() {
        KdfMethod::Argon2(a) => assert_eq!(a.mem_cost, 1),
        other => panic!("unexpected {:?}", other),
    }
}

#[test]
fn oversized_costs_are_rejected() {
    let d = VariantDictionary::parse(&argon2_dictionary(ARGON2D, 1 << 32, MEMORY_BYTES)).unwrap();
    match KdfMethod::try_from(&d) {
        Err(BinaryParseError::UnknownFieldValue { field, .. }) => assert_eq!(field, "KDF.I"),
        other => panic!("unexpected {:?}", other),
    }
    let d = VariantDictionary::parse(&argon2_dictionary(ARGON2D, 2, 1024 << 32)).unwrap();
    match KdfMethod::try_from(&d) {
        Err(BinaryParseError::UnknownFieldValue { field, value }) => {
            assert_eq!(field, "KDF.M");
            assert_eq!(value, 1024 << 32);
        }
        other => panic!("unexpected {:?}", other),
    }
}

#[test]
fn unknown_kdf_uuid_is_rejected() {
    let d = VariantDictionary::parse(&argon2_dictionary(42, 2, MEMORY_BYTES)).unwrap();
    match KdfMethod::try_from(&d) {
        Err(BinaryParseError::UnknownFieldValue { field, value }) => {
            assert_eq!(field, "$UUID");
            assert_eq!(value, 42);
        }
        other => panic!("unexpected {:?}", other),
    }
    let d = VariantDictionary::parse(&[0x00, 0x01, 0x00]).unwrap();
    assert!(matches!(
        KdfMethod::try_from(&d),
        Err(BinaryParseError::FieldNotFound("KDF.$UUID"))
    ));
}

#[test]
fn short_kdf_uuid_is_an_unknown_field_value() {
    let mut kdf = vec![0x00, 0x01];
    kdf.extend(entry(0x42, "$UUID", &[0x01, 0x02, 0x03]));
    kdf.push(0x00);
    let d = VariantDictionary::parse(&kdf).unwrap();
    match KdfMethod::try_from(&d) {
        Err(BinaryParseError::UnknownFieldValue { field, value }) => {
            assert_eq!(field, "$UUID");
            assert_eq!(value, 0x030201);
        }
        other => panic!("unexpected {:?}", other),
    }
}

#[test]
fn zero_lanes_is_a_crypto_error() {
    let mut kdf = vec![0x00, 0x01];
    kdf.extend(entry(0x42, "$UUID", &ARGON2D.to_le_bytes()));
    kdf.extend(entry(0x04, "V", &0x13u32.to_le_bytes()));
    kdf.extend(entry(0x42, "S", &SALT));
    kdf.extend(entry(0x05, "I", &2u64.to_le_bytes()));
    kdf.extend(entry(0x05, "M", &MEMORY_BYTES.to_le_bytes()));
    kdf.extend(entry(0x04, "P", &0u32.to_le_bytes()));
    kdf.push(0x00);
    let header = header_bytes(CHACHA20, 1, &kdf);
    let data = file_for(&header, "password");
    let parsed = OuterHeader::parse(&data).unwrap();
    assert!(matches!(
        parsed.validate(&data, CompositeKey::fromPassword("password")),
        Err(BinaryParseError::CryptoError(CryptoError::Argon2Error(_)))
    ));
}

#[test]
fn aes_kdf_is_reported_as_not_implemented() {
    let mut kdf = vec![0x00, 0x01];
    kdf.extend(entry(0x42, "$UUID", &AES_KDF.to_le_bytes()));
    kdf.extend(entry(0x42, "S", &SALT));
    kdf.extend(entry(0x05, "R", &6000u64.to_le_bytes()));
    kdf.push(0x00);
    let header = header_bytes(CHACHA20, 1, &kdf);
    let data = file_for(&header, "password");
    let parsed = OuterHeader::parse(&data).unwrap();
    assert!(matches!(
        parsed.validate(&data, CompositeKey::fromPassword("password")),
        Err(BinaryParseError::CryptoError(CryptoError::KdfNotImplemented))
    ));
}

#[test]
fn argon2_rejection_is_a_crypto_error() {
    let header = header_bytes(CHACHA20, 1, &argon2_dictionary(ARGON2D, 0, MEMORY_BYTES));
    let data = file_for(&header, "password");
    let parsed = OuterHeader::parse(&data).unwrap();
    assert!(matches!(
        parsed.validate(&data, CompositeKey::fromPassword("password")),
        Err(BinaryParseError::CryptoError(CryptoError::Argon2Error(_)))
    ));
}

#[test]
fn composite_key_hashes_password_twice() {
    let key = CompositeKey::fromPassword("password");
    let expected = Sha256::digest(&Sha256::digest(b"password"));
    assert_eq!(&key.key[..], &expected[..]);
    assert_ne!(&key.key[..], &Sha256::digest(b"password")[..]);
}

#[test]
fn hmac_key_is_sha512_of_seed_key_and_one() {
    let seed = MasterSeed([1; 16]);
    let transformed = TransformedKey { key: [2; 32] };
    let key = HmacKey::new(&seed, &transformed);
    let mut input = vec![1u8; 16];
    input.extend_from_slice(&[2; 32]);
    input.push(1);
    assert_eq!(&key.key[..], &Sha512::digest(&input)[..]);
}

#[test]
fn sha256_covers_exactly_the_prefix() {
    let data = b"abcdef";
    let digest = calculate_sha256(data, 3).unwrap();
    assert_eq!(&digest[..], &Sha256::digest(b"abc")[..]);
    assert!(matches!(
        calculate_sha256(data, 7),
        Err(BinaryParseError::UnexpectedEof)
    ));
}

#[test]
fn master_seed_reads_sixteen_bytes() {
    let data: Vec<u8> = (0u8..20).collect();
    let seed = MasterSeed::read_from(&data, 2).unwrap();
    assert_eq!(seed.0[0], 2);
    assert_eq!(seed.0[15], 17);
    assert!(matches!(
        MasterSeed::read_from(&data, 5),
        Err(BinaryParseError::UnexpectedEof)
    ));
}
