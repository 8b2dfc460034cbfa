//! The variant dictionary: a self-terminating typed key/value encoding.
use vstd::prelude::*;
use vstd::string::StringSliceAdditionalSpecFns;
use vstd::utf8::valid_utf8;

use crate::bytes::{bytes_eq, le, le_at, le_bytes, lemma_le_of_le_bytes, lemma_pow256_values, read_u16, read_u32, read_u64, read_u8, to_vec};
use crate::error::BinaryParseError;

verus! {

/// Longest key a dictionary entry may declare (1 MiB).
pub const MAX_KEY_LENGTH: u32 = 0x10_0000;

/// Longest value a dictionary entry may declare (8 MiB).
pub const MAX_VALUE_LENGTH: u32 = 0x80_0000;

pub const TYPE_END: u8 = 0x00;
pub const TYPE_UINT32: u8 = 0x04;
pub const TYPE_UINT64: u8 = 0x05;
pub const TYPE_BOOL: u8 = 0x08;
pub const TYPE_INT32: u8 = 0x0C;
pub const TYPE_INT64: u8 = 0x0D;
pub const TYPE_STRING: u8 = 0x18;
pub const TYPE_BYTES: u8 = 0x42;

/// The mathematical value of a dictionary entry.
pub enum DictValue {
    UInt32(u32),
    UInt64(u64),
    Bool(bool),
    Int32(i32),
    Int64(i64),
    /// The UTF-8 bytes of a string.
    String(Seq<u8>),
    Bytes(Seq<u8>),
}

/// The two's-complement reading of a 32-bit pattern.
pub open spec fn signed32(v: nat) -> int {
    if v >= 0x8000_0000 {
        v - 0x1_0000_0000
    } else {
        v as int
    }
}

/// The two's-complement reading of a 64-bit pattern.
pub open spec fn signed64(v: nat) -> int {
    if v >= 0x8000_0000_0000_0000 {
        v - 0x1_0000_0000_0000_0000
    } else {
        v as int
    }
}

/// How many value bytes an entry of type `t` with declared length `length` occupies:
/// integers and booleans their fixed width, all other types their declared length.
pub open spec fn value_width(t: u8, length: nat) -> nat {
    if t == TYPE_UINT32 || t == TYPE_INT32 {
        4
    } else if t == TYPE_UINT64 || t == TYPE_INT64 {
        8
    } else if t == TYPE_BOOL {
        1
    } else {
        length
    }
}

/// The value of type `t` held in `b` (exactly its width); `None` for a type this
/// format does not know, which is skipped.
pub open spec fn decode_value(t: u8, b: Seq<u8>) -> Result<Option<DictValue>, BinaryParseError> {
    if t == TYPE_UINT32 {
        Ok(Some(DictValue::UInt32(le(b) as u32)))
    } else if t == TYPE_UINT64 {
        Ok(Some(DictValue::UInt64(le(b) as u64)))
    } else if t == TYPE_BOOL {
        Ok(Some(DictValue::Bool(b[0] > 0)))
    } else if t == TYPE_INT32 {
        Ok(Some(DictValue::Int32(signed32(le(b)) as i32)))
    } else if t == TYPE_INT64 {
        Ok(Some(DictValue::Int64(signed64(le(b)) as i64)))
    } else if t == TYPE_STRING {
        if valid_utf8(b) {
            Ok(Some(DictValue::String(b)))
        } else {
            Err(BinaryParseError::Utf8Error)
        }
    } else if t == TYPE_BYTES {
        Ok(Some(DictValue::Bytes(b)))
    } else {
        Ok(None)
    }
}

/// The entries encoded in `s`, up to and including the terminator, in the order they
/// appear; entries of unknown type are left out.
pub open spec fn spec_entries(s: Seq<u8>) -> Result<Seq<(Seq<u8>, DictValue)>, BinaryParseError>
    decreases s.len(),
{
    if s.len() < 1 {
        Err(BinaryParseError::UnexpectedEof)
    } else if s[0] == TYPE_END {
        Ok(Seq::empty())
    } else if s.len() < 5 {
        Err(BinaryParseError::UnexpectedEof)
    } else {
        let t = s[0];
        let klen = le(s.subrange(1, 5)) as int;
        if klen > MAX_KEY_LENGTH {
            Err(BinaryParseError::FieldTooLarge(klen as u32))
        } else if s.len() < 5 + klen {
            Err(BinaryParseError::UnexpectedEof)
        } else if !valid_utf8(s.subrange(5, 5 + klen)) {
            Err(BinaryParseError::Utf8Error)
        } else if s.len() < 9 + klen {
            Err(BinaryParseError::UnexpectedEof)
        } else {
            let vlen = le(s.subrange(5 + klen, 9 + klen)) as int;
            let w = value_width(t, vlen as nat) as int;
            if vlen > MAX_VALUE_LENGTH {
                Err(BinaryParseError::FieldTooLarge(vlen as u32))
            } else if s.len() < 9 + klen + w {
                Err(BinaryParseError::UnexpectedEof)
            } else {
                match decode_value(t, s.subrange(9 + klen, 9 + klen + w)) {
                    Err(e) => Err(e),
                    Ok(v) => match spec_entries(s.subrange(9 + klen + w, s.len() as int)) {
                        Err(e) => Err(e),
                        Ok(rest) => match v {
                            Some(v) => Ok(seq![(s.subrange(5, 5 + klen), v)] + rest),
                            None => Ok(rest),
                        },
                    },
                }
            }
        }
    }
}

/// The entries of the dictionary encoded in `s`: a version whose high byte is 1,
/// then the entries.
pub open spec fn spec_dict(s: Seq<u8>) -> Result<Seq<(Seq<u8>, DictValue)>, BinaryParseError> {
    if s.len() < 2 {
        Err(BinaryParseError::UnexpectedEof)
    } else if le(s.subrange(0, 2)) / 256 != 1 {
        Err(BinaryParseError::UnsupportedVariantDictionaryVersion(le(s.subrange(0, 2)) as u16))
    } else {
        spec_entries(s.subrange(2, s.len() as int))
    }
}

/// The map that a list of entries gives: a later entry replaces an earlier one of the same key.
pub open spec fn entries_map(es: Seq<(Seq<u8>, DictValue)>) -> Map<Seq<u8>, DictValue>
    decreases es.len(),
{
    if es.len() == 0 {
        Map::empty()
    } else {
        entries_map(es.drop_last()).insert(es.last().0, es.last().1)
    }
}

proof fn lemma_entries_map_found(es: Seq<(Seq<u8>, DictValue)>, j: int, k: Seq<u8>)
    requires
        0 <= j < es.len(),
        es[j].0 == k,
        forall|m: int| j < m < es.len() ==> es[m].0 != k,
    ensures
        entries_map(es).contains_key(k),
        entries_map(es)[k] == es[j].1,
    decreases es.len(),
{
    if j < es.len() - 1 {
        lemma_entries_map_found(es.drop_last(), j, k);
    }
}

proof fn lemma_entries_map_absent(es: Seq<(Seq<u8>, DictValue)>, k: Seq<u8>)
    requires
        forall|m: int| 0 <= m < es.len() ==> es[m].0 != k,
    ensures
        !entries_map(es).contains_key(k),
    decreases es.len(),
{
    if es.len() > 0 {
        lemma_entries_map_absent(es.drop_last(), k);
    }
}

/// A decoded dictionary value.
#[derive(Debug, Clone)]
pub enum Value {
    UInt32(u32),
    UInt64(u64),
    Bool(bool),
    Int32(i32),
    Int64(i64),
    /// The bytes of a string, well-formed UTF-8.
    String(Vec<u8>),
    Bytes(Vec<u8>),
}

impl View for Value {
    type V = DictValue;

    open spec fn view(&self) -> DictValue {
        match self {
            Value::UInt32(v) => DictValue::UInt32(*v),
            Value::UInt64(v) => DictValue::UInt64(*v),
            Value::Bool(v) => DictValue::Bool(*v),
            Value::Int32(v) => DictValue::Int32(*v),
            Value::Int64(v) => DictValue::Int64(*v),
            Value::String(v) => DictValue::String(v@),
            Value::Bytes(v) => DictValue::Bytes(v@),
        }
    }
}

/// Relies on `std::str::from_utf8`, which succeeds exactly on well-formed UTF-8.
#[verifier::external_body]
fn is_utf8(b: &[u8]) -> (r: bool)
    ensures
        r == valid_utf8(b@),
{
    std::str::from_utf8(b).is_ok()
}

/// Executable form of `value_width`.
fn width_of(t: u8, length: u32) -> (r: usize)
    ensures
        r == value_width(t, length as nat),
{
    if t == TYPE_UINT32 || t == TYPE_INT32 {
        4
    } else if t == TYPE_UINT64 || t == TYPE_INT64 {
        8
    } else if t == TYPE_BOOL {
        1
    } else {
        length as usize
    }
}

impl Value {
    /// Decodes the value of type `value_type` and declared length `length` at `pos`,
    /// returning it (`None` for an unknown type, whose bytes are skipped) and the
    /// number of bytes it occupies.
    pub fn parse(value_type: u8, length: u32, data: &[u8], pos: usize) -> (r: Result<
        (Option<Value>, usize),
        BinaryParseError,
    >)
        ensures
            ({
                let w = value_width(value_type, length as nat);
                if pos + w > data@.len() {
                    r == Err::<(Option<Value>, usize), BinaryParseError>(
                        BinaryParseError::UnexpectedEof,
                    )
                } else {
                    match decode_value(value_type, data@.subrange(pos as int, pos + w)) {
                        Err(e) => r == Err::<(Option<Value>, usize), BinaryParseError>(e),
                        Ok(v) => r matches Ok((x, n)) && n == w && match x {
                            Some(x) => v == Some(x@),
                            None => v is None,
                        },
                    }
                }
            }),
    {
        let w = width_of(value_type, length);
        if pos > data.len() || data.len() - pos < w {
            return Err(BinaryParseError::UnexpectedEof);
        }
        let b = vstd::slice::slice_subrange(data, pos, pos + w);
        proof {
            assert(b@.subrange(0, b@.len() as int) =~= b@);
        }
        let v = if value_type == TYPE_UINT32 {
            match read_u32(b, 0) {
                Some(x) => Value::UInt32(x),
                None => return Err(BinaryParseError::UnexpectedEof),
            }
        } else if value_type == TYPE_UINT64 {
            match read_u64(b, 0) {
                Some(x) => Value::UInt64(x),
                None => return Err(BinaryParseError::UnexpectedEof),
            }
        } else if value_type == TYPE_BOOL {
            Value::Bool(b[0] > 0)
        } else if value_type == TYPE_INT32 {
            match read_u32(b, 0) {
                Some(x) => {
                    let y: i32 = if x >= 0x8000_0000 {
                        (x as i64 - 0x1_0000_0000i64) as i32
                    } else {
                        x as i32
                    };
                    Value::Int32(y)
                },
                None => return Err(BinaryParseError::UnexpectedEof),
            }
        } else if value_type == TYPE_INT64 {
            match read_u64(b, 0) {
                Some(x) => {
                    let y: i64 = if x >= 0x8000_0000_0000_0000 {
                        (x as i128 - 0x1_0000_0000_0000_0000i128) as i64
                    } else {
                        x as i64
                    };
                    Value::Int64(y)
                },
                None => return Err(BinaryParseError::UnexpectedEof),
            }
        } else if value_type == TYPE_STRING {
            if !is_utf8(b) {
                return Err(BinaryParseError::Utf8Error);
            }
            Value::String(to_vec(b))
        } else if value_type == TYPE_BYTES {
            Value::Bytes(to_vec(b))
        } else {
            return Ok((None, w));
        };
        Ok((Some(v), w))
    }
}

/// One stored entry of a dictionary.
#[derive(Debug, Clone)]
pub struct Entry {
    pub key: Vec<u8>,
    pub value: Value,
}

/// A decoded variant dictionary.
#[derive(Debug)]
pub struct VariantDictionary {
    entries: Vec<Entry>,
}

/// The lookup of `k` as an unsigned 32-bit integer.
pub open spec fn lookup_u32(m: Map<Seq<u8>, DictValue>, k: Seq<u8>) -> Option<u32> {
    if m.contains_key(k) {
        match m[k] {
            DictValue::UInt32(v) => Some(v),
            _ => None,
        }
    } else {
        None
    }
}

/// The lookup of `k` as an unsigned 64-bit integer; a 32-bit entry is widened.
pub open spec fn lookup_u64(m: Map<Seq<u8>, DictValue>, k: Seq<u8>) -> Option<u64> {
    if m.contains_key(k) {
        match m[k] {
            DictValue::UInt32(v) => Some(v as u64),
            DictValue::UInt64(v) => Some(v),
            _ => None,
        }
    } else {
        None
    }
}

/// The lookup of `k` as bytes; a string entry gives its UTF-8 bytes.
pub open spec fn lookup_bytes(m: Map<Seq<u8>, DictValue>, k: Seq<u8>) -> Option<Seq<u8>> {
    if m.contains_key(k) {
        match m[k] {
            DictValue::Bytes(v) => Some(v),
            DictValue::String(v) => Some(v),
            _ => None,
        }
    } else {
        None
    }
}

/// Whether no two of the entries share a key.
pub open spec fn unique_keys(es: Seq<(Seq<u8>, DictValue)>) -> bool {
    forall|i: int, j: int| 0 <= i < j < es.len() ==> es[i].0 != es[j].0
}

/// The keys and values of stored entries.
pub open spec fn stored(entries: Seq<Entry>) -> Seq<(Seq<u8>, DictValue)> {
    entries.map_values(|e: Entry| (e.key@, e.value@))
}

proof fn lemma_entries_map_replace(es: Seq<(Seq<u8>, DictValue)>, i: int, v: DictValue)
    requires
        unique_keys(es),
        0 <= i < es.len(),
    ensures
        entries_map(es.update(i, (es[i].0, v))) == entries_map(es).insert(es[i].0, v),
    decreases es.len(),
{
    let k = es[i].0;
    let new = es.update(i, (k, v));
    if i == es.len() - 1 {
        assert(new.drop_last() =~= es.drop_last());
        assert(entries_map(new) =~= entries_map(es).insert(k, v));
    } else {
        let dl = es.drop_last();
        assert(unique_keys(dl));
        lemma_entries_map_replace(dl, i, v);
        assert(new.drop_last() =~= dl.update(i, (k, v)));
        assert(new.last() == es.last());
        assert(es.last().0 != k);
        assert(entries_map(new) =~= entries_map(es).insert(k, v));
    }
}

/// Stores `value` under `key`, replacing the entry of that key if there is one.
fn insert_entry(entries: &mut Vec<Entry>, key: Vec<u8>, value: Value)
    requires
        unique_keys(stored(old(entries)@)),
    ensures
        unique_keys(stored(final(entries)@)),
        entries_map(stored(final(entries)@)) == entries_map(stored(old(entries)@)).insert(
            key@,
            value@,
        ),
{
    let ghost before = stored(entries@);
    let mut i: usize = 0;
    while i < entries.len()
        invariant
            i <= entries@.len(),
            entries@ == old(entries)@,
            before == stored(entries@),
            unique_keys(before),
            forall|m: int| 0 <= m < i ==> before[m].0 != key@,
        decreases entries@.len() - i,
    {
        if bytes_eq(entries[i].key.as_slice(), key.as_slice()) {
            let ghost v = value@;
            entries.set(i, Entry { key, value });
            proof {
                assert(stored(entries@) =~= before.update(i as int, (before[i as int].0, v)));
                lemma_entries_map_replace(before, i as int, v);
            }
            return;
        }
        i = i + 1;
    }
    let ghost x = (key@, value@);
    entries.push(Entry { key, value });
    proof {
        let now = stored(entries@);
        assert(now =~= before.push(x));
        assert(now.drop_last() =~= before);
    }
}

impl VariantDictionary {
    /// The stored entries, one per key, in the order their keys first appeared.
    pub closed spec fn entries_view(&self) -> Seq<(Seq<u8>, DictValue)> {
        stored(self.entries@)
    }

    /// Decodes the dictionary at the start of `data`; bytes after the terminator are ignored.
    pub fn parse(data: &[u8]) -> (r: Result<VariantDictionary, BinaryParseError>)
        ensures
            match spec_dict(data@) {
                Ok(es) => r matches Ok(d) && d@ == entries_map(es) && unique_keys(d.entries_view()),
                Err(e) => r == Err::<VariantDictionary, BinaryParseError>(e),
            },
    {
        let version = match read_u16(data, 0) {
            Some(v) => v,
            None => return Err(BinaryParseError::UnexpectedEof),
        };
        if version / 256 != 1 {
            return Err(BinaryParseError::UnsupportedVariantDictionaryVersion(version));
        }
        let ghost total = spec_entries(data@.subrange(2, data@.len() as int));
        let mut entries: Vec<Entry> = Vec::new();
        let mut pos: usize = 2;
        let ghost mut decoded: Seq<(Seq<u8>, DictValue)> = Seq::empty();
        proof {
            assert(stored(entries@) =~= Seq::<(Seq<u8>, DictValue)>::empty());
            assert(Seq::<(Seq<u8>, DictValue)>::empty() + spec_entries(data@.subrange(2, data@.len() as int))->Ok_0 =~= spec_entries(data@.subrange(2, data@.len() as int))->Ok_0);
        }
        loop
            invariant
                2 <= pos <= data@.len(),
                total == spec_entries(data@.subrange(2, data@.len() as int)),
                spec_dict(data@) == total,
                unique_keys(stored(entries@)),
                entries_map(stored(entries@)) == entries_map(decoded),
                total == match spec_entries(data@.subrange(pos as int, data@.len() as int)) {
                    Ok(rest) => Ok(decoded + rest),
                    Err(e) => Err(e),
                },
            decreases data@.len() - pos,
        {
            let s = vstd::slice::slice_subrange(data, pos, data.len());
            let ghost cur = decoded;
            let t = match read_u8(s, 0) {
                Some(t) => t,
                None => return Err(BinaryParseError::UnexpectedEof),
            };
            if t == TYPE_END {
                proof {
                    assert(cur + Seq::<(Seq<u8>, DictValue)>::empty() =~= cur);
                }
                let d = VariantDictionary { entries };
                assert(d.entries_view() == stored(d.entries@));
                return Ok(d);
            }
            let klen = match read_u32(s, 1) {
                Some(v) => v,
                None => return Err(BinaryParseError::UnexpectedEof),
            };
            if klen > MAX_KEY_LENGTH {
                return Err(BinaryParseError::FieldTooLarge(klen));
            }
            let kend: usize = 5 + klen as usize;
            if kend > s.len() {
                return Err(BinaryParseError::UnexpectedEof);
            }
            let key = vstd::slice::slice_subrange(s, 5, kend);
            if !is_utf8(key) {
                return Err(BinaryParseError::Utf8Error);
            }
            let vlen = match read_u32(s, kend) {
                Some(v) => v,
                None => return Err(BinaryParseError::UnexpectedEof),
            };
            if vlen > MAX_VALUE_LENGTH {
                return Err(BinaryParseError::FieldTooLarge(vlen));
            }
            let (value, w) = match Value::parse(t, vlen, s, kend + 4) {
                Ok(p) => p,
                Err(e) => return Err(e),
            };
            let next: usize = pos + kend + 4 + w;
            proof {
                let ss = s@;
                assert(ss =~= data@.subrange(pos as int, data@.len() as int));
                assert(ss.subrange(kend + 4, ss.len() as int) =~= data@.subrange(
                    pos + kend + 4,
                    data@.len() as int,
                ));
                assert(ss.subrange(kend + 4 + w, ss.len() as int) =~= data@.subrange(
                    next as int,
                    data@.len() as int,
                ));
            }
            match value {
                Some(v) => {
                    let ghost x = (key@, v@);
                    insert_entry(&mut entries, to_vec(key), v);
                    proof {
                        decoded = cur.push(x);
                        assert(decoded.drop_last() =~= cur);
                        match spec_entries(data@.subrange(next as int, data@.len() as int)) {
                            Ok(rest) => {
                                assert(cur + (seq![x] + rest) =~= decoded + rest);
                            },
                            Err(e) => {},
                        }
                    }
                },
                None => {},
            }
            pos = next;
        }
    }

    /// The value stored under `key`.
    fn find(&self, key: &[u8]) -> (r: Option<&Value>)
        ensures
            match r {
                Some(v) => self@.contains_key(key@) && self@[key@] == v@,
                None => !self@.contains_key(key@),
            },
    {
        let ghost es = self.entries_view();
        let mut i: usize = self.entries.len();
        while i > 0
            invariant
                i <= self.entries@.len(),
                es == self.entries_view(),
                forall|m: int| i <= m < es.len() ==> es[m].0 != key@,
            decreases i,
        {
            i = i - 1;
            if crate::bytes::bytes_eq(self.entries[i].key.as_slice(), key) {
                proof {
                    lemma_entries_map_found(es, i as int, key@);
                }
                return Some(&self.entries[i].value);
            }
        }
        proof {
            lemma_entries_map_absent(es, key@);
        }
        None
    }

    /// The unsigned 32-bit integer stored under `key`.
    pub fn get_u32(&self, key: &str) -> (r: Option<u32>)
        ensures
            r == lookup_u32(self@, key.spec_bytes()),
    {
        match self.find(key.as_bytes()) {
            Some(Value::UInt32(v)) => Some(*v),
            _ => None,
        }
    }

    /// The unsigned integer stored under `key`, widened to 64 bits.
    pub fn get_u64(&self, key: &str) -> (r: Option<u64>)
        ensures
            r == lookup_u64(self@, key.spec_bytes()),
    {
        match self.find(key.as_bytes()) {
            Some(Value::UInt32(v)) => Some(*v as u64),
            Some(Value::UInt64(v)) => Some(*v),
            _ => None,
        }
    }

    /// The bytes stored under `key`, as a byte entry or as the UTF-8 bytes of a string entry.
    pub fn get_bytes<'a>(&'a self, key: &str) -> (r: Option<&'a [u8]>)
        ensures
            match r {
                Some(b) => lookup_bytes(self@, key.spec_bytes()) == Some(b@),
                None => lookup_bytes(self@, key.spec_bytes()) is None,
            },
    {
        match self.find(key.as_bytes()) {
            Some(Value::Bytes(v)) => Some(v.as_slice()),
            Some(Value::String(v)) => Some(v.as_slice()),
            _ => None,
        }
    }
}

impl View for VariantDictionary {
    type V = Map<Seq<u8>, DictValue>;

    closed spec fn view(&self) -> Map<Seq<u8>, DictValue> {
        entries_map(self.entries_view())
    }
}

/// The encoding of one entry: type, key length, key, value length, value.
pub open spec fn encode_entry(t: u8, key: Seq<u8>, value: Seq<u8>) -> Seq<u8> {
    seq![t] + le_bytes(key.len(), 4) + key + le_bytes(value.len(), 4) + value
}

/// The encoding of a list of (type, key, value) entries followed by the terminator.
pub open spec fn encode_entries(es: Seq<(u8, Seq<u8>, Seq<u8>)>) -> Seq<u8>
    decreases es.len(),
{
    if es.len() == 0 {
        seq![TYPE_END]
    } else {
        encode_entry(es[0].0, es[0].1, es[0].2) + encode_entries(es.drop_first())
    }
}

/// The encoding of a dictionary of version 1.0 holding `es`.
pub open spec fn encode_dict(es: Seq<(u8, Seq<u8>, Seq<u8>)>) -> Seq<u8> {
    seq![0x00u8, 0x01u8] + encode_entries(es)
}

/// An entry that an encoder may write: a non-terminator type, lengths within bounds,
/// a UTF-8 key, an integer or boolean of its exact width, a string in UTF-8.
pub open spec fn encodable(e: (u8, Seq<u8>, Seq<u8>)) -> bool {
    &&& e.0 != TYPE_END
    &&& e.1.len() <= MAX_KEY_LENGTH
    &&& valid_utf8(e.1)
    &&& e.2.len() <= MAX_VALUE_LENGTH
    &&& e.2.len() == value_width(e.0, e.2.len())
    &&& (e.0 == TYPE_STRING ==> valid_utf8(e.2))
}

/// The (key, value) pairs that `es` describes, leaving out entries of unknown type.
pub open spec fn decoded_entries(es: Seq<(u8, Seq<u8>, Seq<u8>)>) -> Seq<(Seq<u8>, DictValue)>
    decreases es.len(),
{
    if es.len() == 0 {
        Seq::empty()
    } else {
        let rest = decoded_entries(es.drop_first());
        match decode_value(es[0].0, es[0].2) {
            Ok(Some(v)) => seq![(es[0].1, v)] + rest,
            _ => rest,
        }
    }
}

proof fn lemma_entries_round_trip(es: Seq<(u8, Seq<u8>, Seq<u8>)>)
    requires
        forall|i: int| 0 <= i < es.len() ==> encodable(#[trigger] es[i]),
    ensures
        spec_entries(encode_entries(es)) == Ok::<Seq<(Seq<u8>, DictValue)>, BinaryParseError>(
            decoded_entries(es),
        ),
    decreases es.len(),
{
    if es.len() > 0 {
        let (t, key, value) = es[0];
        assert(encodable(es[0]));
        let tail = es.drop_first();
        assert forall|i: int| 0 <= i < tail.len() implies encodable(#[trigger] tail[i]) by {
            assert(tail[i] == es[i + 1]);
        }
        lemma_entries_round_trip(tail);
        lemma_pow256_values();
        lemma_le_of_le_bytes(key.len(), 4);
        lemma_le_of_le_bytes(value.len(), 4);
        let s = encode_entries(es);
        let klen = key.len() as int;
        let w = value.len() as int;
        assert(s.subrange(1, 5) =~= le_bytes(key.len(), 4));
        assert(s.subrange(5, 5 + klen) =~= key);
        assert(s.subrange(5 + klen, 9 + klen) =~= le_bytes(value.len(), 4));
        assert(s.subrange(9 + klen, 9 + klen + w) =~= value);
        assert(s.subrange(9 + klen + w, s.len() as int) =~= encode_entries(tail));
        assert(value_width(t, value.len()) == value.len());
        if t == TYPE_STRING {
            assert(decode_value(t, value) == Ok::<Option<DictValue>, BinaryParseError>(
                Some(DictValue::String(value)),
            ));
        }
    }
}

/// Decoding the encoding of well-formed entries gives back exactly their keys and
/// values, in the encoded order, with entries of unknown type left out; the
/// dictionary's map is then the map of those pairs.
pub proof fn lemma_dict_round_trip(es: Seq<(u8, Seq<u8>, Seq<u8>)>)
    requires
        forall|i: int| 0 <= i < es.len() ==> encodable(#[trigger] es[i]),
    ensures
        spec_dict(encode_dict(es)) == Ok::<Seq<(Seq<u8>, DictValue)>, BinaryParseError>(
            decoded_entries(es),
        ),
{
    let s = encode_dict(es);
    lemma_entries_round_trip(es);
    let v = s.subrange(0, 2);
    assert(v =~= seq![0x00u8, 0x01u8]);
    assert(v.drop_first() =~= seq![0x01u8]);
    assert(v.drop_first().drop_first() =~= Seq::<u8>::empty());
    assert(le(v.drop_first().drop_first()) == 0);
    assert(le(v.drop_first()) == 1);
    assert(le(v) == 256);
    assert(s.subrange(2, s.len() as int) =~= encode_entries(es));
}

proof fn lemma_decoded_entries_append(a: Seq<(u8, Seq<u8>, Seq<u8>)>, b: Seq<(u8, Seq<u8>, Seq<u8>)>)
    ensures
        decoded_entries(a + b) == decoded_entries(a) + decoded_entries(b),
    decreases a.len(),
{
    if a.len() == 0 {
        assert(a + b =~= b);
        assert(Seq::<(Seq<u8>, DictValue)>::empty() + decoded_entries(b) =~= decoded_entries(b));
    } else {
        assert((a + b).drop_first() =~= a.drop_first() + b);
        lemma_decoded_entries_append(a.drop_first(), b);
        assert((a + b)[0] == a[0]);
        match decode_value(a[0].0, a[0].2) {
            Ok(Some(v)) => {
                assert(seq![(a[0].1, v)] + (decoded_entries(a.drop_first()) + decoded_entries(b))
                    =~= (seq![(a[0].1, v)] + decoded_entries(a.drop_first())) + decoded_entries(b));
            },
            _ => {},
        }
    }
}

/// An entry of unknown type between other entries is dropped, and the entries after it
/// are still decoded: the result is that of the encoding without it.
pub proof fn lemma_unknown_entry_dropped(
    before: Seq<(u8, Seq<u8>, Seq<u8>)>,
    unknown: (u8, Seq<u8>, Seq<u8>),
    after: Seq<(u8, Seq<u8>, Seq<u8>)>,
)
    requires
        forall|i: int| 0 <= i < before.len() ==> encodable(#[trigger] before[i]),
        forall|i: int| 0 <= i < after.len() ==> encodable(#[trigger] after[i]),
        encodable(unknown),
        unknown.0 != TYPE_UINT32 && unknown.0 != TYPE_UINT64 && unknown.0 != TYPE_BOOL
            && unknown.0 != TYPE_INT32 && unknown.0 != TYPE_INT64 && unknown.0 != TYPE_STRING
            && unknown.0 != TYPE_BYTES,
    ensures
        spec_dict(encode_dict(before + seq![unknown] + after)) == spec_dict(
            encode_dict(before + after),
        ),
{
    let with = before + seq![unknown] + after;
    let without = before + after;
    assert forall|i: int| 0 <= i < with.len() implies encodable(#[trigger] with[i]) by {
        if i < before.len() {
            assert(with[i] == before[i]);
        } else if i == before.len() {
            assert(with[i] == unknown);
        } else {
            assert(with[i] == after[i - before.len() - 1]);
        }
    }
    assert forall|i: int| 0 <= i < without.len() implies encodable(#[trigger] without[i]) by {
        if i < before.len() {
            assert(without[i] == before[i]);
        } else {
            assert(without[i] == after[i - before.len()]);
        }
    }
    lemma_dict_round_trip(with);
    lemma_dict_round_trip(without);
    lemma_decoded_entries_append(before + seq![unknown], after);
    lemma_decoded_entries_append(before, seq![unknown]);
    lemma_decoded_entries_append(before, after);
    assert(seq![unknown].drop_first() =~= Seq::<(u8, Seq<u8>, Seq<u8>)>::empty());
    assert(decode_value(unknown.0, unknown.2) == Ok::<Option<DictValue>, BinaryParseError>(None));
    assert(decoded_entries(seq![unknown].drop_first()) =~= Seq::<(Seq<u8>, DictValue)>::empty());
    assert(decoded_entries(seq![unknown]) =~= Seq::<(Seq<u8>, DictValue)>::empty());
    assert(decoded_entries(before) + Seq::<(Seq<u8>, DictValue)>::empty() =~= decoded_entries(before));
}

proof fn lemma_entries_map_prepend(x: (Seq<u8>, DictValue), rest: Seq<(Seq<u8>, DictValue)>)
    requires
        !entries_map(rest).contains_key(x.0),
    ensures
        entries_map(seq![x] + rest) == entries_map(rest).insert(x.0, x.1),
    decreases rest.len(),
{
    if rest.len() == 0 {
        assert(seq![x] + rest =~= seq![x]);
        assert(rest =~= Seq::<(Seq<u8>, DictValue)>::empty());
        assert(seq![x].drop_last() =~= Seq::<(Seq<u8>, DictValue)>::empty());
        assert(seq![x].last() == x);
        assert(entries_map(seq![x]) =~= entries_map(rest).insert(x.0, x.1));
    } else {
        let y = rest.last();
        lemma_entries_map_prepend(x, rest.drop_last());
        assert((seq![x] + rest).drop_last() =~= seq![x] + rest.drop_last());
        assert((seq![x] + rest).last() == y);
        assert(entries_map(seq![x] + rest) =~= entries_map(rest).insert(x.0, x.1));
    }
}

/// Whether the entries' keys are pairwise distinct.
pub open spec fn distinct_keys(es: Seq<(u8, Seq<u8>, Seq<u8>)>) -> bool {
    forall|i: int, j: int| 0 <= i < j < es.len() ==> es[i].1 != es[j].1
}

/// Every key that the map of the decoded entries holds is the key of an entry.
proof fn lemma_decoded_keys(es: Seq<(u8, Seq<u8>, Seq<u8>)>, k: Seq<u8>)
    requires
        forall|i: int| 0 <= i < es.len() ==> es[i].1 != k,
    ensures
        !entries_map(decoded_entries(es)).contains_key(k),
    decreases es.len(),
{
    if es.len() > 0 {
        let tail = es.drop_first();
        assert forall|i: int| 0 <= i < tail.len() implies tail[i].1 != k by {
            assert(tail[i] == es[i + 1]);
        }
        lemma_decoded_keys(tail, k);
        match decode_value(es[0].0, es[0].2) {
            Ok(Some(v)) => {
                lemma_decoded_keys_absent_prepend(es[0].1, v, decoded_entries(tail), k);
            },
            _ => {},
        }
    }
}

proof fn lemma_decoded_keys_absent_prepend(
    key: Seq<u8>,
    v: DictValue,
    rest: Seq<(Seq<u8>, DictValue)>,
    k: Seq<u8>,
)
    requires
        key != k,
        !entries_map(rest).contains_key(k),
    ensures
        !entries_map(seq![(key, v)] + rest).contains_key(k),
    decreases rest.len(),
{
    if rest.len() == 0 {
        assert(seq![(key, v)] + rest =~= seq![(key, v)]);
        assert(seq![(key, v)].drop_last() =~= Seq::<(Seq<u8>, DictValue)>::empty());
        assert(seq![(key, v)].last() == (key, v));
        assert(!entries_map(Seq::<(Seq<u8>, DictValue)>::empty()).contains_key(k));
    } else {
        lemma_decoded_keys_absent_prepend(key, v, rest.drop_last(), k);
        assert((seq![(key, v)] + rest).drop_last() =~= seq![(key, v)] + rest.drop_last());
        assert((seq![(key, v)] + rest).last() == rest.last());
    }
}

proof fn lemma_decoded_lookup(es: Seq<(u8, Seq<u8>, Seq<u8>)>)
    requires
        distinct_keys(es),
    ensures
        forall|i: int|
            0 <= i < es.len() ==> match #[trigger] decode_value(es[i].0, es[i].2) {
                Ok(Some(v)) => entries_map(decoded_entries(es)).contains_key(es[i].1)
                    && entries_map(decoded_entries(es))[es[i].1] == v,
                _ => !entries_map(decoded_entries(es)).contains_key(es[i].1),
            },
    decreases es.len(),
{
    if es.len() > 0 {
        let tail = es.drop_first();
        assert forall|i: int, j: int| 0 <= i < j < tail.len() implies tail[i].1 != tail[j].1 by {
            assert(tail[i] == es[i + 1] && tail[j] == es[j + 1]);
        }
        lemma_decoded_lookup(tail);
        assert forall|i: int| 0 <= i < tail.len() implies tail[i].1 != es[0].1 by {
            assert(tail[i] == es[i + 1]);
        }
        lemma_decoded_keys(tail, es[0].1);
        let mt = entries_map(decoded_entries(tail));
        assert forall|i: int| 0 <= i < es.len() implies match #[trigger] decode_value(
            es[i].0,
            es[i].2,
        ) {
            Ok(Some(v)) => entries_map(decoded_entries(es)).contains_key(es[i].1)
                && entries_map(decoded_entries(es))[es[i].1] == v,
            _ => !entries_map(decoded_entries(es)).contains_key(es[i].1),
        } by {
            match decode_value(es[0].0, es[0].2) {
                Ok(Some(v0)) => {
                    lemma_entries_map_prepend((es[0].1, v0), decoded_entries(tail));
                },
                _ => {},
            }
            if i > 0 {
                assert(es[i] == tail[i - 1]);
                assert(es[i].1 != es[0].1);
            }
        }
    }
}

/// Decoding the encoding of well-formed entries with distinct keys gives, for each
/// entry of known type, exactly its decoded value under its key; entries of unknown
/// type and keys of no entry are absent.
pub proof fn lemma_dict_lookups(es: Seq<(u8, Seq<u8>, Seq<u8>)>)
    requires
        forall|i: int| 0 <= i < es.len() ==> encodable(#[trigger] es[i]),
        distinct_keys(es),
    ensures
        spec_dict(encode_dict(es)) is Ok,
        forall|i: int|
            0 <= i < es.len() ==> match #[trigger] decode_value(es[i].0, es[i].2) {
                Ok(Some(v)) => entries_map(spec_dict(encode_dict(es))->Ok_0).contains_key(es[i].1)
                    && entries_map(spec_dict(encode_dict(es))->Ok_0)[es[i].1] == v,
                _ => !entries_map(spec_dict(encode_dict(es))->Ok_0).contains_key(es[i].1),
            },
        forall|k: Seq<u8>|
            (forall|i: int| 0 <= i < es.len() ==> es[i].1 != k) ==> !entries_map(
                spec_dict(encode_dict(es))->Ok_0,
            ).contains_key(k),
{
    lemma_dict_round_trip(es);
    lemma_decoded_lookup(es);
    assert forall|k: Seq<u8>|
        (forall|i: int| 0 <= i < es.len() ==> es[i].1 != k) implies !entries_map(
        spec_dict(encode_dict(es))->Ok_0,
    ).contains_key(k) by {
        lemma_decoded_keys(es, k);
    }
}

/// The order in which entries with distinct keys are encoded does not change any lookup:
/// two encodings of the same entries in different orders decode to the same map.
pub proof fn lemma_dict_order_independent(
    a: Seq<(u8, Seq<u8>, Seq<u8>)>,
    b: Seq<(u8, Seq<u8>, Seq<u8>)>,
)
    requires
        forall|i: int| 0 <= i < a.len() ==> encodable(#[trigger] a[i]),
        distinct_keys(a),
        forall|i: int| 0 <= i < b.len() ==> encodable(#[trigger] b[i]),
        distinct_keys(b),
        forall|i: int| #![trigger a[i]] 0 <= i < a.len() ==> exists|j: int| #![trigger b[j]] 0 <= j < b.len() && b[j] == a[i],
        forall|j: int| #![trigger b[j]] 0 <= j < b.len() ==> exists|i: int| #![trigger a[i]] 0 <= i < a.len() && a[i] == b[j],
    ensures
        spec_dict(encode_dict(a)) is Ok,
        spec_dict(encode_dict(b)) is Ok,
        entries_map(spec_dict(encode_dict(a))->Ok_0) == entries_map(
            spec_dict(encode_dict(b))->Ok_0,
        ),
{
    lemma_dict_lookups(a);
    lemma_dict_lookups(b);
    let ma = entries_map(spec_dict(encode_dict(a))->Ok_0);
    let mb = entries_map(spec_dict(encode_dict(b))->Ok_0);
    assert forall|k: Seq<u8>| #[trigger] ma.contains_key(k) implies mb.contains_key(k) && ma[k]
        == mb[k] by {
        if forall|i: int| 0 <= i < a.len() ==> a[i].1 != k {
        } else {
            let i = choose|i: int| 0 <= i < a.len() && a[i].1 == k;
            let j = choose|j: int| 0 <= j < b.len() && b[j] == a[i];
            assert(decode_value(a[i].0, a[i].2) == decode_value(b[j].0, b[j].2));
        }
    }
    assert forall|k: Seq<u8>| #[trigger] mb.contains_key(k) implies ma.contains_key(k) by {
        if forall|j: int| 0 <= j < b.len() ==> b[j].1 != k {
        } else {
            let j = choose|j: int| 0 <= j < b.len() && b[j].1 == k;
            let i = choose|i: int| 0 <= i < a.len() && a[i] == b[j];
            assert(decode_value(a[i].0, a[i].2) == decode_value(b[j].0, b[j].2));
        }
    }
    assert(ma =~= mb);
}

} // verus!
