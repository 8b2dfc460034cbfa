use kdbx::dict::{Value, VariantDictionary};
use kdbx::error::BinaryParseError;

fn entry(t: u8, key: &str, value: &[u8]) -> Vec<u8> {
    let mut out = vec![t];
    out.extend_from_slice(&(key.len() as u32).to_le_bytes());
    out.extend_from_slice(key.as_bytes());
    out.extend_from_slice(&(value.len() as u32).to_le_bytes());
    out.extend_from_slice(value);
    out
}

fn dictionary(entries: &[Vec<u8>]) -> Vec<u8> {
    let mut out = vec![0x00, 0x01];
    for e in entries {
        out.extend_from_slice(e);
    }
    out.push(0x00);
    out
}

#[test]
fn round_trip_recovers_every_typed_entry() {
    let data = dictionary(&[
        entry(0x04, "u32", &7u32.to_le_bytes()),
        entry(0x05, "u64", &0x1_0000_0001u64.to_le_bytes()),
        entry(0x08, "flag", &[1]),
        entry(0x0C, "i32", &(-5i32).to_le_bytes()),
        entry(0x0D, "i64", &(-9i64).to_le_bytes()),
        entry(0x18, "name", b"h\xc3\xa9llo"),
        entry(0x42, "raw", &[9, 8, 7]),
    ]);
    let d = VariantDictionary::parse(&data).unwrap();
    assert_eq!(d.get_u32("u32"), Some(7));
    assert_eq!(d.get_u64("u64"), Some(0x1_0000_0001));
    assert_eq!(d.get_bytes("name"), Some("héllo".as_bytes()));
    assert_eq!(d.get_bytes("raw"), Some(&[9u8, 8, 7][..]));
    assert_eq!(d.get_u32("u64"), None);
    assert_eq!(d.get_u32("missing"), None);
}

#[test]
fn signed_and_boolean_values_decode() {
    let data = entry(0x0C, "i32", &(-5i32).to_le_bytes());
    match Value::parse(0x0C, 4, &data, data.len() - 4).unwrap() {
        (Some(Value::Int32(v)), 4) => assert_eq!(v, -5),
        other => panic!("unexpected {:?}", other),
    }
    let data = (-9i64).to_le_bytes();
    match Value::parse(0x0D, 8, &data, 0).unwrap() {
        (Some(Value::Int64(v)), 8) => assert_eq!(v, -9),
        other => panic!("unexpected {:?}", other),
    }
    match Value::parse(0x08, 1, &[2], 0).unwrap() {
        (Some(Value::Bool(b)), 1) => assert!(b),
        other => panic!("unexpected {:?}", other),
    }
    match Value::parse(0x08, 1, &[0], 0).unwrap() {
        (Some(Value::Bool(b)), 1) => assert!(!b),
        other => panic!("unexpected {:?}", other),
    }
}

#[test]
fn u32_entry_widens_to_u64() {
    let data = dictionary(&[entry(0x04, "M", &65536u32.to_le_bytes())]);
    let d = VariantDictionary::parse(&data).unwrap();
    assert_eq!(d.get_u64("M"), Some(65536));
}

#[test]
fn unknown_type_entry_is_dropped_and_parsing_continues() {
    let data = dictionary(&[
        entry(0x04, "a", &1u32.to_le_bytes()),
        entry(0x77, "odd", &[1, 2, 3, 4, 5]),
        entry(0x04, "b", &2u32.to_le_bytes()),
    ]);
    let d = VariantDictionary::parse(&data).unwrap();
    assert_eq!(d.get_u32("a"), Some(1));
    assert_eq!(d.get_bytes("odd"), None);
    assert_eq!(d.get_u32("odd"), None);
    assert_eq!(d.get_u32("b"), Some(2));
}

#[test]
fn later_entry_replaces_earlier_one() {
    let data = dictionary(&[
        entry(0x04, "k", &1u32.to_le_bytes()),
        entry(0x04, "k", &2u32.to_le_bytes()),
    ]);
    let d = VariantDictionary::parse(&data).unwrap();
    assert_eq!(d.get_u32("k"), Some(2));
}

#[test]
fn empty_dictionary_parses() {
    let d = VariantDictionary::parse(&[0x00, 0x01, 0x00]).unwrap();
    assert_eq!(d.get_u32("x"), None);
}

#[test]
fn minor_version_is_ignored() {
    let d = VariantDictionary::parse(&[0x07, 0x01, 0x00]).unwrap();
    assert_eq!(d.get_bytes("x"), None);
}

#[test]
fn wrong_major_version_is_rejected() {
    match VariantDictionary::parse(&[0x00, 0x02, 0x00]) {
        Err(BinaryParseError::UnsupportedVariantDictionaryVersion(v)) => assert_eq!(v, 0x0200),
        other => panic!("unexpected {:?}", other),
    }
}

#[test]
fn oversized_key_is_rejected() {
    let mut data = vec![0x00, 0x01, 0x04];
    data.extend_from_slice(&(1024 * 1024 + 1u32).to_le_bytes());
    match VariantDictionary::parse(&data) {
        Err(BinaryParseError::FieldTooLarge(n)) => assert_eq!(n, 1024 * 1024 + 1),
        other => panic!("unexpected {:?}", other),
    }
}

#[test]
fn key_of_exactly_one_mib_is_not_too_large() {
    let mut data = vec![0x00, 0x01, 0x04];
    data.extend_from_slice(&(1024 * 1024u32).to_le_bytes());
    assert!(matches!(
        VariantDictionary::parse(&data),
        Err(BinaryParseError::UnexpectedEof)
    ));
}

#[test]
fn oversized_value_is_rejected() {
    let mut data = vec![0x00, 0x01, 0x42];
    data.extend_from_slice(&1u32.to_le_bytes());
    data.push(b'k');
    data.extend_from_slice(&(8 * 1024 * 1024 + 1u32).to_le_bytes());
    match VariantDictionary::parse(&data) {
        Err(BinaryParseError::FieldTooLarge(n)) => assert_eq!(n, 8 * 1024 * 1024 + 1),
        other => panic!("unexpected {:?}", other),
    }
}

#[test]
fn invalid_utf8_key_is_rejected() {
    let mut data = vec![0x00, 0x01, 0x04];
    data.extend_from_slice(&1u32.to_le_bytes());
    data.push(0xFF);
    data.extend_from_slice(&4u32.to_le_bytes());
    data.extend_from_slice(&1u32.to_le_bytes());
    data.push(0);
    assert!(matches!(
        VariantDictionary::parse(&data),
        Err(BinaryParseError::Utf8Error)
    ));
}

#[test]
fn invalid_utf8_string_value_is_rejected() {
    let data = dictionary(&[entry(0x18, "s", &[0xC3, 0x28])]);
    assert!(matches!(
        VariantDictionary::parse(&data),
        Err(BinaryParseError::Utf8Error)
    ));
}

#[test]
fn truncated_dictionary_is_rejected() {
    assert!(matches!(
        VariantDictionary::parse(&[0x00]),
        Err(BinaryParseError::UnexpectedEof)
    ));
    assert!(matches!(
        VariantDictionary::parse(&[0x00, 0x01]),
        Err(BinaryParseError::UnexpectedEof)
    ));
    let mut data = dictionary(&[entry(0x42, "k", &[1, 2, 3])]);
    data.truncate(data.len() - 3);
    assert!(matches!(
        VariantDictionary::parse(&data),
        Err(BinaryParseError::UnexpectedEof)
    ));
}
