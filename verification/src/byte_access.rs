//! Fixed-width loads and stores in byte buffers, as the native runtime does
//! them: little-endian, unaligned, and a no-op (or 0) when the access does not
//! fit in the buffer. A null buffer behaves as an empty one.
use vstd::prelude::*;
use crate::runtime::pow256;

verus! {

/// The unsigned little-endian number that the bytes spell.
pub open spec fn le_value(s: Seq<u8>) -> nat
    decreases s.len(),
{
    if s.len() == 0 {
        0
    } else {
        s[0] as nat + 256 * le_value(s.drop_first())
    }
}

/// The `n` least significant bytes of `v`, least significant first.
pub open spec fn le_bytes(v: nat, n: nat) -> Seq<u8>
    decreases n,
{
    if n == 0 {
        Seq::empty()
    } else {
        seq![(v % 256) as u8] + le_bytes(v / 256, (n - 1) as nat)
    }
}

/// Whether `n` bytes at `index` lie within a buffer of `len` bytes.
pub open spec fn fits(len: nat, index: int, n: nat) -> bool {
    0 <= index && index + n <= len
}

/// A 32-bit pattern read as a two's-complement number.
pub open spec fn signed32(w: nat) -> int {
    if w < 0x8000_0000 {
        w as int
    } else {
        w - 0x1_0000_0000
    }
}

/// A 64-bit pattern read as a two's-complement number.
pub open spec fn signed64(w: nat) -> int {
    if w < 0x8000_0000_0000_0000 {
        w as int
    } else {
        w - 0x1_0000_0000_0000_0000
    }
}

/// The two's-complement pattern of `v` in `n` bytes.
pub open spec fn pattern(v: int, n: nat) -> nat {
    (v % (pow256(n) as int)) as nat
}

/// `v` wrapped to a 32-bit signed number.
pub open spec fn wrap32(v: int) -> int {
    signed32(pattern(v, 4))
}

/// The buffer with `n` bytes at `index` replaced by the pattern of `v`.
pub open spec fn stored(s: Seq<u8>, index: int, v: int, n: nat) -> Seq<u8> {
    s.subrange(0, index) + le_bytes(pattern(v, n), n) + s.subrange(index + n, s.len() as int)
}

/// The buffer of a handle: a null handle has no bytes.
pub open spec fn handle_bytes(b: Option<&[u8]>) -> Seq<u8> {
    match b {
        Some(s) => s@,
        None => Seq::empty(),
    }
}

pub proof fn lemma_pow256_facts(n: nat)
    ensures
        pow256(n) > 0,
        pow256(n + 1) == 256 * pow256(n),
    decreases n,
{
    if n > 0 {
        lemma_pow256_facts((n - 1) as nat);
    }
}

proof fn lemma_pow256_values()
    ensures
        pow256(4) == 0x1_0000_0000,
        pow256(8) == 0x1_0000_0000_0000_0000,
{
    reveal_with_fuel(pow256, 9);
}

pub proof fn lemma_le_value_bound(s: Seq<u8>)
    ensures
        le_value(s) < pow256(s.len()),
    decreases s.len(),
{
    if s.len() > 0 {
        lemma_le_value_bound(s.drop_first());
        lemma_pow256_facts(s.drop_first().len());
    }
}

pub proof fn lemma_le_bytes_len(v: nat, n: nat)
    ensures
        le_bytes(v, n).len() == n,
    decreases n,
{
    if n > 0 {
        lemma_le_bytes_len(v / 256, (n - 1) as nat);
    }
}

/// Reading back `n` bytes written from `v` gives `v` modulo `256^n`.
pub proof fn lemma_le_round_trip(v: nat, n: nat)
    ensures
        le_value(le_bytes(v, n)) == v % pow256(n),
    decreases n,
{
    lemma_le_bytes_len(v, n);
    if n == 0 {
    } else {
        let m = (n - 1) as nat;
        lemma_le_round_trip(v / 256, m);
        lemma_pow256_facts(m);
        let s = le_bytes(v, n);
        assert(s.drop_first() =~= le_bytes(v / 256, m));
        vstd::arithmetic::div_mod::lemma_mod_breakdown(v as int, 256, pow256(m) as int);
    }
}

/// The value of a buffer's bytes at `index..index + n`, computed from the
/// most significant byte down.
fn load_le(b: &[u8], index: usize, n: usize) -> (r: u64)
    requires
        n <= 8,
        index + n <= b@.len(),
    ensures
        r as nat == le_value(b@.subrange(index as int, index + n)),
{
    let len = b.len();
    let mut w: u64 = 0;
    let mut k: usize = n;
    proof {
        assert(b@.subrange(index + n, index + n).len() == 0);
    }
    while k > 0
        invariant
            k <= n <= 8,
            index + n <= b@.len(),
            len == b@.len(),
            w as nat == le_value(b@.subrange(index + k, index + n)),
            w < pow256((n - k) as nat),
        decreases k,
    {
        k = k - 1;
        let ghost tail = b@.subrange(index + k + 1, index + n);
        let ghost cur = b@.subrange(index + k, index + n);
        proof {
            assert(cur.drop_first() =~= tail);
            lemma_pow256_facts((n - k - 1) as nat);
            lemma_pow256_facts((n - k) as nat);
            lemma_pow256_values();
            assert(pow256((n - k) as nat) <= pow256(8)) by {
                lemma_pow256_mono((n - k) as nat, 8);
            }
            assert(w * 256 + 255 < pow256((n - k) as nat)) by (nonlinear_arith)
                requires
                    w < pow256((n - k - 1) as nat),
                    pow256((n - k) as nat) == 256 * pow256((n - k - 1) as nat),
            ;
        }
        let i = index + k;
        w = w * 256 + b[i] as u64;
    }
    proof {
        assert(b@.subrange(index as int, index + n) =~= b@.subrange(index + 0, index + n));
    }
    w
}

pub proof fn lemma_pow256_mono(a: nat, b: nat)
    requires
        a <= b,
    ensures
        pow256(a) <= pow256(b),
    decreases b,
{
    if a < b {
        lemma_pow256_mono(a, (b - 1) as nat);
        lemma_pow256_facts((b - 1) as nat);
    }
}

/// Byte `j` of `le_bytes(v, n)` is byte `j` of `v`.
pub proof fn lemma_le_bytes_index(v: nat, n: nat, j: nat)
    requires
        j < n,
    ensures
        le_bytes(v, n).len() == n,
        le_bytes(v, n)[j as int] == ((v / pow256(j)) % 256) as u8,
    decreases n,
{
    lemma_le_bytes_len(v, n);
    let s = le_bytes(v, n);
    assert(s == seq![(v % 256) as u8] + le_bytes(v / 256, (n - 1) as nat));
    if j == 0 {
        assert(pow256(0) == 1);
        assert(v / 1 == v);
    } else {
        lemma_le_bytes_len(v / 256, (n - 1) as nat);
        assert(s[j as int] == le_bytes(v / 256, (n - 1) as nat)[j - 1]);
        lemma_le_bytes_index(v / 256, (n - 1) as nat, (j - 1) as nat);
        lemma_le_bytes_len(v / 256, (n - 1) as nat);
        lemma_pow256_facts((j - 1) as nat);
        vstd::arithmetic::div_mod::lemma_div_denominator(v as int, 256, pow256((j - 1) as nat) as int);
    }
}

/// Whether `n` bytes at `index` fit, computed without overflow.
fn fits_exec(len: usize, index: i64, n: u64) -> (r: bool)
    requires
        n <= 8,
    ensures
        r == fits(len as nat, index as int, n as nat),
{
    if index < 0 {
        false
    } else {
        (index as u64) + n <= len as u64
    }
}

/// The two's-complement pattern of `value` in eight bytes.
pub(crate) fn pattern64(value: i64) -> (r: u64)
    ensures
        r as nat == pattern(value as int, 8),
{
    proof {
        lemma_pow256_values();
    }
    if value >= 0 {
        value as u64
    } else {
        let shifted = (value - i64::MIN) as u64;
        let r = shifted + 9223372036854775808u64;
        assert(r as int == value + 0x1_0000_0000_0000_0000);
        assert((value as int) % 0x1_0000_0000_0000_0000 == value + 0x1_0000_0000_0000_0000);
        r
    }
}

/// The two's-complement pattern of `value` in `n` bytes (`n` is 4 or 8).
fn pattern_of(value: i64, n: usize) -> (r: u64)
    requires
        n == 4 || n == 8,
    ensures
        r as nat == pattern(value as int, n as nat),
{
    let p = pattern64(value);
    if n == 8 {
        p
    } else {
        proof {
            lemma_pow256_values();
            vstd::arithmetic::div_mod::lemma_mod_mod(value as int, 0x1_0000_0000, 0x1_0000_0000);
        }
        p % 4294967296
    }
}

/// Writes `n` bytes of the pattern of `value` at `index`, which fit.
fn store_le(bytes: &mut Vec<u8>, index: usize, value: i64, n: usize)
    requires
        n == 4 || n == 8,
        index + n <= old(bytes)@.len(),
    ensures
        final(bytes)@ == stored(old(bytes)@, index as int, value as int, n as nat),
{
    let p = pattern_of(value, n);
    let len = bytes.len();
    let mut v: u64 = p;
    let mut k: usize = 0;
    proof {
        lemma_le_bytes_len(p as nat, n as nat);
        lemma_pow256_facts(0);
    }
    while k < n
        invariant
            k <= n,
            n == 4 || n == 8,
            index + n <= old(bytes)@.len(),
            bytes@.len() == old(bytes)@.len(),
            len == bytes@.len(),
            v as nat == p as nat / pow256(k as nat),
            forall|j: int|
                0 <= j < bytes@.len() ==> #[trigger] bytes@[j] == if index <= j < index + k {
                    le_bytes(p as nat, n as nat)[j - index]
                } else {
                    old(bytes)@[j]
                },
        decreases n - k,
    {
        proof {
            lemma_le_bytes_index(p as nat, n as nat, k as nat);
            lemma_pow256_facts(k as nat);
            vstd::arithmetic::div_mod::lemma_div_denominator(p as int, pow256(k as nat) as int, 256);
            assert(pow256(k as nat) * 256 == 256 * pow256(k as nat)) by (nonlinear_arith);
        }
        let i = index + k;
        bytes.set(i, (v % 256) as u8);
        v = v / 256;
        k = k + 1;
    }
    proof {
        let t = stored(old(bytes)@, index as int, value as int, n as nat);
        assert(bytes@ =~= t) by {
            assert forall|j: int| 0 <= j < t.len() implies bytes@[j] == t[j] by {
                if j < index {
                } else if j < index + n {
                    assert(t[j] == le_bytes(p as nat, n as nat)[j - index]);
                } else {
                }
            }
        }
    }
}

/// Loads the little-endian 32-bit signed number at `index`, widened; 0 when
/// the four bytes do not fit in the buffer. An index from -4 to -1 is left
/// out: there the offset computation overflows.
pub fn sarif_bytes_load_i32(bytes: Option<&[u8]>, index: i64) -> (r: i64)
    requires
        !(-4 <= index < 0),
    ensures
        r == if fits(handle_bytes(bytes).len(), index as int, 4) {
            signed32(le_value(handle_bytes(bytes).subrange(index as int, index + 4)))
        } else {
            0
        },
{
    match bytes {
        None => 0,
        Some(b) => {
            if !fits_exec(b.len(), index, 4) {
                return 0;
            }
            let w = load_le(b, index as usize, 4);
            proof {
                lemma_le_value_bound(b@.subrange(index as int, index + 4));
                lemma_pow256_values();
            }
            if w < 0x8000_0000 {
                w as i64
            } else {
                w as i64 - 0x1_0000_0000
            }
        },
    }
}

/// The same load as `sarif_bytes_load_i32`, under the name the code
/// generator uses for 64-bit indices.
pub fn sarif_bytes_load_i32_i64(bytes: Option<&[u8]>, index: i64) -> (r: i64)
    requires
        !(-4 <= index < 0),
    ensures
        r == if fits(handle_bytes(bytes).len(), index as int, 4) {
            signed32(le_value(handle_bytes(bytes).subrange(index as int, index + 4)))
        } else {
            0
        },
{
    sarif_bytes_load_i32(bytes, index)
}

/// Loads the little-endian 64-bit signed number at `index`; 0 when the
/// eight bytes do not fit. An index from -8 to -1 is left out.
pub fn sarif_bytes_load_i64(bytes: Option<&[u8]>, index: i64) -> (r: i64)
    requires
        !(-8 <= index < 0),
    ensures
        r == if fits(handle_bytes(bytes).len(), index as int, 8) {
            signed64(le_value(handle_bytes(bytes).subrange(index as int, index + 8)))
        } else {
            0
        },
{
    match bytes {
        None => 0,
        Some(b) => {
            if !fits_exec(b.len(), index, 8) {
                return 0;
            }
            let w = load_le(b, index as usize, 8);
            proof {
                lemma_le_value_bound(b@.subrange(index as int, index + 8));
                lemma_pow256_values();
            }
            if w < 0x8000_0000_0000_0000 {
                w as i64
            } else {
                let low = (w - 0x8000_0000_0000_0000) as i64;
                low + i64::MIN
            }
        },
    }
}

/// The same load as `sarif_bytes_load_i64`, under the name the code
/// generator uses for 64-bit indices.
pub fn sarif_bytes_load_i64_i64(bytes: Option<&[u8]>, index: i64) -> (r: i64)
    requires
        !(-8 <= index < 0),
    ensures
        r == if fits(handle_bytes(bytes).len(), index as int, 8) {
            signed64(le_value(handle_bytes(bytes).subrange(index as int, index + 8)))
        } else {
            0
        },
{
    sarif_bytes_load_i64(bytes, index)
}

/// Stores the low 32 bits of `value`, little-endian, at `index`; nothing
/// changes when the four bytes do not fit (a null buffer is an empty one).
/// An index from -4 to -1 is left out.
pub fn sarif_bytes_store_i32(bytes: &mut Vec<u8>, index: i64, value: i64)
    requires
        !(-4 <= index < 0),
    ensures
        final(bytes)@ == if fits(old(bytes)@.len(), index as int, 4) {
            stored(old(bytes)@, index as int, value as int, 4)
        } else {
            old(bytes)@
        },
{
    if fits_exec(bytes.len(), index, 4) {
        store_le(bytes, index as usize, value, 4);
    }
}

/// Stores `value`, little-endian, at `index`; nothing changes when the eight
/// bytes do not fit. An index from -8 to -1 is left out.
pub fn sarif_bytes_store_i64(bytes: &mut Vec<u8>, index: i64, value: i64)
    requires
        !(-8 <= index < 0),
    ensures
        final(bytes)@ == if fits(old(bytes)@.len(), index as int, 8) {
            stored(old(bytes)@, index as int, value as int, 8)
        } else {
            old(bytes)@
        },
{
    if fits_exec(bytes.len(), index, 8) {
        store_le(bytes, index as usize, value, 8);
    }
}

/// A 32-bit store followed by a 32-bit load at the same index gives the
/// stored number wrapped to 32 bits (the number itself when it fits in 32
/// bits), and leaves every other byte as it was.
pub proof fn lemma_load_after_store_i32(s: Seq<u8>, index: int, v: int)
    requires
        fits(s.len(), index, 4),
    ensures
        stored(s, index, v, 4).len() == s.len(),
        signed32(le_value(stored(s, index, v, 4).subrange(index, index + 4))) == wrap32(v),
        -0x8000_0000 <= v < 0x8000_0000 ==> wrap32(v) == v,
        forall|j: int|
            0 <= j < s.len() && !(index <= j < index + 4) ==> #[trigger] stored(s, index, v, 4)[j] == s[j],
{
    lemma_round_trip_common(s, index, v, 4);
    lemma_pow256_values();
}

/// A 64-bit store followed by a 64-bit load at the same index gives the
/// stored number back, and leaves every other byte as it was.
pub proof fn lemma_load_after_store_i64(s: Seq<u8>, index: int, v: i64)
    requires
        fits(s.len(), index, 8),
    ensures
        stored(s, index, v as int, 8).len() == s.len(),
        signed64(le_value(stored(s, index, v as int, 8).subrange(index, index + 8))) == v,
        forall|j: int|
            0 <= j < s.len() && !(index <= j < index + 8) ==> #[trigger] stored(s, index, v as int, 8)[j] == s[j],
{
    lemma_round_trip_common(s, index, v as int, 8);
    lemma_pow256_values();
}

proof fn lemma_round_trip_common(s: Seq<u8>, index: int, v: int, n: nat)
    requires
        fits(s.len(), index, n),
    ensures
        stored(s, index, v, n).len() == s.len(),
        stored(s, index, v, n).subrange(index, index + n) == le_bytes(pattern(v, n), n),
        le_value(le_bytes(pattern(v, n), n)) == pattern(v, n),
        forall|j: int|
            0 <= j < s.len() && !(index <= j < index + n) ==> #[trigger] stored(s, index, v, n)[j] == s[j],
{
    let p = pattern(v, n);
    lemma_pow256_facts(n);
    lemma_le_bytes_len(p, n);
    lemma_le_round_trip(p, n);
    let t = stored(s, index, v, n);
    assert(t.subrange(index, index + n) =~= le_bytes(p, n));
    vstd::arithmetic::div_mod::lemma_mod_bound(v, pow256(n) as int);
    vstd::arithmetic::div_mod::lemma_small_mod(p, pow256(n));
}

/// Loads the flag byte at `index` as 0 or 1; 0 when it is outside the
/// buffer. The byte must hold a flag (0 or 1), and the index -1, where the
/// offset computation overflows, is left out.
pub fn sarif_bytes_load_bool(bytes: Option<&[u8]>, index: i64) -> (r: i64)
    requires
        index != -1,
        fits(handle_bytes(bytes).len(), index as int, 1) ==> handle_bytes(bytes)[index as int] <= 1,
    ensures
        r == if fits(handle_bytes(bytes).len(), index as int, 1) {
            handle_bytes(bytes)[index as int] as int
        } else {
            0
        },
{
    match bytes {
        None => 0,
        Some(b) => {
            if !fits_exec(b.len(), index, 1) {
                return 0;
            }
            if b[index as usize] != 0 {
                1
            } else {
                0
            }
        },
    }
}

/// Stores 1 at `index` when `value` is nonzero, else 0; nothing changes
/// when the byte is outside the buffer. The index -1 is left out.
pub fn sarif_bytes_store_bool(bytes: &mut Vec<u8>, index: i64, value: i64)
    requires
        index != -1,
    ensures
        final(bytes)@ == if fits(old(bytes)@.len(), index as int, 1) {
            old(bytes)@.update(index as int, if value != 0 { 1u8 } else { 0u8 })
        } else {
            old(bytes)@
        },
{
    if fits_exec(bytes.len(), index, 1) {
        let flag: u8 = if value != 0 {
            1
        } else {
            0
        };
        bytes.set(index as usize, flag);
    }
}

/// The byte at `index`, or 0 when `index` is outside the buffer.
pub fn sarif_bytes_byte_i64(bytes: Option<&[u8]>, index: i64) -> (r: i64)
    ensures
        r == if 0 <= index < handle_bytes(bytes).len() {
            handle_bytes(bytes)[index as int] as int
        } else {
            0
        },
{
    match bytes {
        None => 0,
        Some(b) => {
            if index < 0 || index as u64 >= b.len() as u64 {
                0
            } else {
                b[index as usize] as i64
            }
        },
    }
}

/// The bytes from `start`, at most `length` of them, cut off at the end of
/// the buffer; empty when `start` or `length` is negative.
pub open spec fn slice_by_length(s: Seq<u8>, start: int, length: int) -> Seq<u8> {
    if start < 0 || length < 0 {
        Seq::empty()
    } else {
        let from = if start < s.len() { start } else { s.len() as int };
        let count = if length < s.len() - from { length } else { s.len() - from };
        s.subrange(from, from + count)
    }
}

/// A copy of `length` bytes from `start` (both cut to the buffer); an empty
/// buffer for a null handle or a negative `start` or `length`.
pub fn sarif_bytes_slice_i64(bytes: Option<&[u8]>, start: i64, length: i64) -> (r: Vec<u8>)
    ensures
        r@ == slice_by_length(handle_bytes(bytes), start as int, length as int),
{
    match bytes {
        None => Vec::new(),
        Some(b) => {
            if start < 0 || length < 0 {
                return Vec::new();
            }
            let len = b.len();
            let from: usize = if (start as u64) < len as u64 {
                start as usize
            } else {
                len
            };
            let count: usize = if (length as u64) < (len - from) as u64 {
                length as usize
            } else {
                len - from
            };
            let mut out: Vec<u8> = Vec::new();
            let mut i: usize = from;
            while i < from + count
                invariant
                    from <= i <= from + count,
                    from + count <= len,
                    len == b@.len(),
                    out@ == b@.subrange(from as int, i as int),
                decreases from + count - i,
            {
                out.push(b[i]);
                assert(b@.subrange(from as int, i + 1) =~= b@.subrange(from as int, i as int).push(b@[i as int]));
                i = i + 1;
            }
            out
        },
    }
}

fn copy_bytes(b: &[u8]) -> (r: Vec<u8>)
    ensures
        r@ == b@,
{
    let mut out: Vec<u8> = Vec::new();
    let mut i: usize = 0;
    while i < b.len()
        invariant
            i <= b@.len(),
            out@ == b@.subrange(0, i as int),
        decreases b@.len() - i,
    {
        out.push(b[i]);
        assert(b@.subrange(0, i + 1) =~= b@.subrange(0, i as int).push(b@[i as int]));
        i = i + 1;
    }
    assert(b@.subrange(0, b@.len() as int) =~= b@);
    out
}

/// The length of a text; 0 for a null text.
pub fn sarif_text_len(text: Option<&[u8]>) -> (r: i64)
    requires
        handle_bytes(text).len() <= i64::MAX,
    ensures
        r == handle_bytes(text).len(),
{
    match text {
        None => 0,
        Some(t) => t.len() as i64,
    }
}

/// The length of a byte buffer (the runtime reads it without a null check,
/// so the buffer must exist).
pub fn sarif_bytes_len(bytes: &[u8]) -> (r: i64)
    requires
        bytes@.len() <= i64::MAX,
    ensures
        r == bytes@.len(),
{
    bytes.len() as i64
}

/// A fresh copy of a text; the empty text for a null one.
pub fn sarif_text_intern(text: Option<&[u8]>) -> (r: Vec<u8>)
    ensures
        r@ == handle_bytes(text),
{
    match text {
        None => Vec::new(),
        Some(t) => copy_bytes(t),
    }
}

/// A fresh copy of a byte buffer; the empty buffer for a null one.
pub fn sarif_bytes_materialize(bytes: Option<&[u8]>) -> (r: Vec<u8>)
    ensures
        r@ == handle_bytes(bytes),
{
    match bytes {
        None => Vec::new(),
        Some(b) => copy_bytes(b),
    }
}

/// The bytes of a buffer as a text; the empty text for a null buffer.
pub fn sarif_bytes_to_text(bytes: Option<&[u8]>) -> (r: Vec<u8>)
    ensures
        r@ == handle_bytes(bytes),
{
    match bytes {
        None => Vec::new(),
        Some(b) => copy_bytes(b),
    }
}

/// The bytes of a text as a fresh buffer; a null text gives a null buffer.
pub fn sarif_text_to_bytes(text: Option<&[u8]>) -> (r: Option<Vec<u8>>)
    ensures
        match text {
            Some(t) => r matches Some(v) && v@ == t@,
            None => r is None,
        },
{
    match text {
        None => None,
        Some(t) => Some(copy_bytes(t)),
    }
}

} // verus!
