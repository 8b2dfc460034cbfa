//! Little-endian integer decoding over byte buffers.
use vstd::prelude::*;

verus! {

/// The unsigned value of `s` read as a little-endian number.
pub open spec fn le(s: Seq<u8>) -> nat
    decreases s.len(),
{
    if s.len() == 0 {
        0
    } else {
        s[0] as nat + 256 * le(s.drop_first())
    }
}

/// `256` raised to the power `n`.
pub open spec fn pow256(n: nat) -> nat
    decreases n,
{
    if n == 0 {
        1
    } else {
        256 * pow256((n - 1) as nat)
    }
}

/// The `n` bytes of `v` in little-endian order (the high part beyond `n` bytes is dropped).
pub open spec fn le_bytes(v: nat, n: nat) -> Seq<u8>
    decreases n,
{
    if n == 0 {
        Seq::empty()
    } else {
        seq![(v % 256) as u8] + le_bytes(v / 256, (n - 1) as nat)
    }
}

/// The little-endian value of the `n` bytes of `s` from `pos`.
pub open spec fn le_at(s: Seq<u8>, pos: int, n: int) -> nat {
    le(s.subrange(pos, pos + n))
}

pub proof fn lemma_pow256_monotonic(a: nat, b: nat)
    requires
        a <= b,
    ensures
        pow256(a) <= pow256(b),
    decreases b,
{
    if a < b {
        lemma_pow256_monotonic(a, (b - 1) as nat);
    }
}

pub proof fn lemma_pow256_values()
    ensures
        pow256(1) == 0x100,
        pow256(2) == 0x1_0000,
        pow256(4) == 0x1_0000_0000,
        pow256(8) == 0x1_0000_0000_0000_0000,
        pow256(16) == 0x1_0000_0000_0000_0000_0000_0000_0000_0000,
{
    reveal_with_fuel(pow256, 17);
}

pub proof fn lemma_le_bound(s: Seq<u8>)
    ensures
        le(s) < pow256(s.len()),
    decreases s.len(),
{
    if s.len() > 0 {
        lemma_le_bound(s.drop_first());
        let a = s[0] as nat;
        let b = le(s.drop_first());
        let p = pow256((s.len() - 1) as nat);
        assert(a + 256 * b < 256 * p) by (nonlinear_arith)
            requires
                a < 256,
                b < p,
        ;
    }
}

/// Encoding a value that fits in `n` bytes and decoding it gives it back.
pub proof fn lemma_le_of_le_bytes(v: nat, n: nat)
    requires
        v < pow256(n),
    ensures
        le_bytes(v, n).len() == n,
        le(le_bytes(v, n)) == v,
    decreases n,
{
    if n > 0 {
        let p = pow256((n - 1) as nat);
        assert(v / 256 < p) by (nonlinear_arith)
            requires
                v < 256 * p,
        ;
        lemma_le_of_le_bytes(v / 256, (n - 1) as nat);
        let s = le_bytes(v, n);
        assert(s.drop_first() =~= le_bytes(v / 256, (n - 1) as nat));
        assert(v == v % 256 + 256 * (v / 256)) by (nonlinear_arith);
    }
}

/// The little-endian value of `width` bytes from `pos`, or `None` where fewer remain.
pub fn read_le(data: &[u8], pos: usize, width: usize) -> (r: Option<u128>)
    requires
        width <= 16,
    ensures
        match r {
            Some(v) => pos + width <= data@.len() && v as nat == le_at(data@, pos as int, width as int),
            None => pos + width > data@.len(),
        },
{
    if width > data.len() || pos > data.len() - width {
        return None;
    }
    let mut acc: u128 = 0;
    let mut i: usize = width;
    proof {
        assert(data@.subrange(pos + width, pos + width) =~= Seq::<u8>::empty());
    }
    while i > 0
        invariant
            i <= width,
            width <= 16,
            pos + width <= data@.len(),
            pos + width <= usize::MAX,
            acc as nat == le_at(data@, pos + i, width - i),
        decreases i,
    {
        i = i - 1;
        proof {
            let rest = data@.subrange(pos + i + 1, pos + width);
            let cur = data@.subrange(pos + i, pos + width);
            assert(cur.drop_first() =~= rest);
            lemma_le_bound(rest);
            lemma_pow256_monotonic((width - i) as nat, 16);
            lemma_pow256_values();
            let p = pow256((width - i - 1) as nat);
            assert(pow256((width - i) as nat) == 256 * p);
            assert(acc * 256 + data@[pos + i] < 256 * p) by (nonlinear_arith)
                requires
                    acc < p,
                    data@[pos + i] < 256,
            ;
        }
        acc = acc * 256 + data[pos + i] as u128;
    }
    Some(acc)
}

/// The byte at `pos`, if there is one.
pub fn read_u8(data: &[u8], pos: usize) -> (r: Option<u8>)
    ensures
        match r {
            Some(v) => pos < data@.len() && v == data@[pos as int],
            None => pos >= data@.len(),
        },
{
    if pos < data.len() {
        Some(data[pos])
    } else {
        None
    }
}

/// Reads a little-endian `u16` at `pos`.
pub fn read_u16(data: &[u8], pos: usize) -> (r: Option<u16>)
    ensures
        match r {
            Some(v) => pos + 2 <= data@.len() && v as nat == le_at(data@, pos as int, 2),
            None => pos + 2 > data@.len(),
        },
{
    match read_le(data, pos, 2) {
        Some(v) => {
            proof {
                lemma_le_bound(data@.subrange(pos as int, pos + 2));
                lemma_pow256_values();
            }
            Some(v as u16)
        },
        None => None,
    }
}

/// Reads a little-endian `u32` at `pos`.
pub fn read_u32(data: &[u8], pos: usize) -> (r: Option<u32>)
    ensures
        match r {
            Some(v) => pos + 4 <= data@.len() && v as nat == le_at(data@, pos as int, 4),
            None => pos + 4 > data@.len(),
        },
{
    match read_le(data, pos, 4) {
        Some(v) => {
            proof {
                lemma_le_bound(data@.subrange(pos as int, pos + 4));
                lemma_pow256_values();
            }
            Some(v as u32)
        },
        None => None,
    }
}

/// Reads a little-endian `u64` at `pos`.
pub fn read_u64(data: &[u8], pos: usize) -> (r: Option<u64>)
    ensures
        match r {
            Some(v) => pos + 8 <= data@.len() && v as nat == le_at(data@, pos as int, 8),
            None => pos + 8 > data@.len(),
        },
{
    match read_le(data, pos, 8) {
        Some(v) => {
            proof {
                lemma_le_bound(data@.subrange(pos as int, pos + 8));
                lemma_pow256_values();
            }
            Some(v as u64)
        },
        None => None,
    }
}

/// Reads a little-endian `u128` at `pos`.
pub fn read_u128(data: &[u8], pos: usize) -> (r: Option<u128>)
    ensures
        match r {
            Some(v) => pos + 16 <= data@.len() && v as nat == le_at(data@, pos as int, 16),
            None => pos + 16 > data@.len(),
        },
{
    read_le(data, pos, 16)
}

/// Whether two byte strings are equal.
pub fn bytes_eq(a: &[u8], b: &[u8]) -> (r: bool)
    ensures
        r == (a@ == b@),
{
    if a.len() != b.len() {
        return false;
    }
    let mut i: usize = 0;
    while i < a.len()
        invariant
            a@.len() == b@.len(),
            i <= a@.len(),
            forall|j: int| 0 <= j < i ==> a@[j] == b@[j],
        decreases a@.len() - i,
    {
        if a[i] != b[i] {
            return false;
        }
        i = i + 1;
    }
    assert(a@ =~= b@);
    true
}

/// Appends `s` to `v`.
pub fn append(v: &mut Vec<u8>, s: &[u8])
    ensures
        final(v)@ == old(v)@ + s@,
{
    let mut i: usize = 0;
    while i < s.len()
        invariant
            i <= s@.len(),
            v@ == old(v)@ + s@.subrange(0, i as int),
        decreases s@.len() - i,
    {
        v.push(s[i]);
        i = i + 1;
        assert(v@ =~= old(v)@ + s@.subrange(0, i as int));
    }
    assert(s@.subrange(0, s@.len() as int) =~= s@);
}

/// A vector holding the bytes of `s`.
pub fn to_vec(s: &[u8]) -> (r: Vec<u8>)
    ensures
        r@ == s@,
{
    let mut v: Vec<u8> = Vec::new();
    append(&mut v, s);
    assert(v@ =~= s@);
    v
}

} // verus!
