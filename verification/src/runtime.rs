//! The text and number helpers of the native runtime, over byte slices.
//!
//! A text is its UTF-8 bytes; `None` stands for a null text handle.
use vstd::prelude::*;

verus! {

/// Alignment of every arena allocation.
pub const ARENA_ALIGN: usize = 16;

/// `n` rounded up to a multiple of the arena alignment.
pub fn arena_align_up(n: usize) -> (r: usize)
    requires
        n + 15 <= usize::MAX,
    ensures
        r % 16 == 0,
        n <= r < n + 16,
{
    let m = n + 15;
    let r = m & !15usize;
    assert(r % 16 == 0 && r <= m && m - r < 16) by (bit_vector)
        requires
            r == m & !15usize,
    ;
    r
}

/// One FNV-1a step: xor the byte in, then multiply by the FNV prime
/// (modulo 2^32).
pub open spec fn fnv_step(h: u32, b: u8) -> u32 {
    (((h ^ (b as u32)) as int * 16777619) % 4294967296) as u32
}

/// Byte `i` (0 = least significant) of `key`.
pub open spec fn le_byte(key: u64, i: nat) -> u8 {
    ((key as nat / pow256(i)) % 256) as u8
}

/// 256 to the power `i`.
pub open spec fn pow256(i: nat) -> nat
    decreases i,
{
    if i == 0 {
        1
    } else {
        256 * pow256((i - 1) as nat)
    }
}

/// FNV-1a over the first `n` little-endian bytes of `key`.
pub open spec fn fnv_prefix(key: u64, n: nat) -> u32
    decreases n,
{
    if n == 0 {
        2166136261u32
    } else {
        fnv_step(fnv_prefix(key, (n - 1) as nat), le_byte(key, (n - 1) as nat))
    }
}

/// The 32-bit FNV-1a hash of the eight little-endian bytes of `key`.
pub fn text_index_hash(key: u64) -> (r: u32)
    ensures
        r == fnv_prefix(key, 8),
{
    let mut hash: u32 = 2166136261;
    let mut rest: u64 = key;
    let mut i: u64 = 0;
    assert(pow256(0) == 1);
    while i < 8
        invariant
            i <= 8,
            hash == fnv_prefix(key, i as nat),
            rest as nat == key as nat / pow256(i as nat),
        decreases 8 - i,
    {
        let b = (rest % 256) as u8;
        let x = (hash ^ (b as u32)) as u64;
        hash = ((x * 16777619) % 4294967296) as u32;
        proof {
            assert(pow256((i + 1) as nat) == 256 * pow256(i as nat));
            assert(pow256(i as nat) > 0) by {
                lemma_pow256_positive(i as nat);
            }
            vstd::arithmetic::div_mod::lemma_div_denominator(
                key as int,
                pow256(i as nat) as int,
                256,
            );
            assert(pow256(i as nat) * 256 == 256 * pow256(i as nat)) by (nonlinear_arith);
        }
        rest = rest / 256;
        i = i + 1;
    }
    hash
}

pub proof fn lemma_pow256_positive(i: nat)
    ensures
        pow256(i) > 0,
    decreases i,
{
    if i > 0 {
        lemma_pow256_positive((i - 1) as nat);
    }
}

/// Whether a byte is a UTF-8 continuation byte (`10xxxxxx`).
pub fn is_utf8_continuation(byte: u8) -> (r: bool)
    ensures
        r == (0x80 <= byte <= 0xbf),
{
    let r = byte & 0xc0 == 0x80;
    assert(r == (0x80 <= byte <= 0xbf)) by (bit_vector)
        requires
            r == (byte & 0xc0 == 0x80),
    ;
    r
}

pub open spec fn is_cont(b: u8) -> bool {
    0x80 <= b <= 0xbf
}

/// `index` clamped to `0..=len`.
pub open spec fn clamp_index(len: nat, index: int) -> nat {
    if index < 0 {
        0
    } else if index > len {
        len
    } else {
        index as nat
    }
}

/// The clamped start index, moved forward past continuation bytes.
pub open spec fn slice_start(bytes: Seq<u8>, i: nat) -> nat
    decreases bytes.len() - i,
{
    if i < bytes.len() && is_cont(bytes[i as int]) {
        slice_start(bytes, i + 1)
    } else {
        i
    }
}

/// The clamped end index, moved back past continuation bytes.
pub open spec fn slice_end(bytes: Seq<u8>, i: nat) -> nat
    decreases i,
{
    if i < bytes.len() && is_cont(bytes[i as int]) && i > 0 {
        slice_end(bytes, (i - 1) as nat)
    } else {
        i
    }
}

/// The start of a text slice: `index` clamped to the text, then moved
/// forward to a character boundary.
pub fn clamp_text_slice_start(bytes: &[u8], index: i64) -> (r: usize)
    ensures
        r == slice_start(bytes@, clamp_index(bytes@.len(), index as int)),
        r <= bytes.len(),
{
    let len = bytes.len();
    let mut i: usize = if index < 0 {
        0
    } else if index as u64 > len as u64 {
        len
    } else {
        index as usize
    };
    let ghost i0 = i as nat;
    while i < len && is_utf8_continuation(bytes[i])
        invariant
            i <= len,
            len == bytes@.len(),
            slice_start(bytes@, i0) == slice_start(bytes@, i as nat),
        decreases len - i,
    {
        i = i + 1;
    }
    i
}

/// The end of a text slice: `index` clamped to the text, then moved back to
/// a character boundary. The bytes must not start with a continuation byte
/// (as no UTF-8 text does).
pub fn clamp_text_slice_end(bytes: &[u8], index: i64) -> (r: usize)
    requires
        bytes@.len() > 0 ==> !is_cont(bytes@[0]),
    ensures
        r == slice_end(bytes@, clamp_index(bytes@.len(), index as int)),
        r <= bytes.len(),
{
    let len = bytes.len();
    let mut i: usize = if index < 0 {
        0
    } else if index as u64 > len as u64 {
        len
    } else {
        index as usize
    };
    let ghost i0 = i as nat;
    while i < len && is_utf8_continuation(bytes[i])
        invariant
            i <= len,
            bytes@.len() > 0 ==> !is_cont(bytes@[0]),
            len == bytes@.len(),
            slice_end(bytes@, i0) == slice_end(bytes@, i as nat),
        decreases i,
    {
        i = i - 1;
    }
    i
}

/// The number of decimals of a fixed-point rendering: clamped to `0..=1000`.
pub fn clamp_fixed_decimal_digits(digits: i64) -> (r: usize)
    ensures
        r == (if digits <= 0 {
            0
        } else if digits >= 1000 {
            1000
        } else {
            digits as int
        }),
{
    if digits <= 0 {
        0
    } else if digits >= 1000 {
        1000
    } else {
        digits as usize
    }
}

} // verus!

verus! {

/// Lexicographic byte order: -1, 0 or 1.
pub open spec fn lex_order(a: Seq<u8>, b: Seq<u8>) -> int
    decreases a.len(),
{
    if a.len() == 0 && b.len() == 0 {
        0
    } else if a.len() == 0 {
        -1
    } else if b.len() == 0 {
        1
    } else if a[0] < b[0] {
        -1
    } else if a[0] > b[0] {
        1
    } else {
        lex_order(a.drop_first(), b.drop_first())
    }
}

pub open spec fn opt_bytes(t: Option<&[u8]>) -> Option<Seq<u8>> {
    match t {
        Some(b) => Some(b@),
        None => None,
    }
}

/// Text comparison: a null text is below every other text.
pub open spec fn text_order(left: Option<Seq<u8>>, right: Option<Seq<u8>>) -> int {
    match (left, right) {
        (None, None) => 0,
        (None, Some(_)) => -1,
        (Some(_), None) => 1,
        (Some(l), Some(r)) => lex_order(l, r),
    }
}

/// Lexicographic comparison of two byte strings: -1, 0 or 1.
fn bytes_order(l: &[u8], r: &[u8]) -> (res: i64)
    ensures
        res == lex_order(l@, r@),
{
    let min_len = if l.len() < r.len() {
        l.len()
    } else {
        r.len()
    };
    let mut i: usize = 0;
    assert(l@.skip(0) =~= l@);
    assert(r@.skip(0) =~= r@);
    while i < min_len
        invariant
            i <= min_len,
            min_len <= l.len(),
            min_len <= r.len(),
            lex_order(l@, r@) == lex_order(l@.skip(i as int), r@.skip(i as int)),
        decreases min_len - i,
    {
        assert(l@.skip(i as int).drop_first() =~= l@.skip(i + 1));
        assert(r@.skip(i as int).drop_first() =~= r@.skip(i + 1));
        assert(l@.skip(i as int)[0] == l@[i as int]);
        assert(r@.skip(i as int)[0] == r@[i as int]);
        let lb = l[i];
        let rb = r[i];
        if lb < rb {
            return -1;
        }
        if lb > rb {
            return 1;
        }
        i = i + 1;
    }
    if l.len() < r.len() {
        assert(l@.skip(i as int).len() == 0);
        -1
    } else if l.len() > r.len() {
        assert(r@.skip(i as int).len() == 0);
        1
    } else {
        assert(l@.skip(i as int).len() == 0);
        0
    }
}

/// Compares two texts byte by byte: -1, 0 or 1.
pub fn sarif_text_cmp(left: Option<&[u8]>, right: Option<&[u8]>) -> (r: i64)
    ensures
        r == text_order(opt_bytes(left), opt_bytes(right)),
{
    match (left, right) {
        (None, None) => 0,
        (None, Some(_)) => -1,
        (Some(_), None) => 1,
        (Some(l), Some(r)) => bytes_order(l, r),
    }
}

/// Text equality: two null texts are equal, a null text equals no other.
pub open spec fn spec_text_eq(left: Option<Seq<u8>>, right: Option<Seq<u8>>) -> bool {
    left == right
}

/// 1 when the texts are equal, else 0.
pub fn sarif_text_eq(left: Option<&[u8]>, right: Option<&[u8]>) -> (r: i64)
    ensures
        r == (if spec_text_eq(opt_bytes(left), opt_bytes(right)) {
            1int
        } else {
            0int
        }),
{
    match (left, right) {
        (None, None) => 1,
        (Some(l), Some(r)) => {
            if l.len() != r.len() {
                assert(l@.len() != r@.len());
                assert(l@ != r@);
                return 0;
            }
            let mut i: usize = 0;
            while i < l.len()
                invariant
                    i <= l.len(),
                    l.len() == r.len(),
                    opt_bytes(left) == Some(l@),
                    opt_bytes(right) == Some(r@),
                    forall|k: int| 0 <= k < i ==> l@[k] == r@[k],
                decreases l.len() - i,
            {
                if l[i] != r[i] {
                    assert(l@[i as int] != r@[i as int]);
                    assert(l@ != r@);
                    return 0;
                }
                i = i + 1;
            }
            assert(l@ =~= r@);
            1
        },
        _ => 0,
    }
}

/// `v` clamped to `lo..=hi` (with `lo <= hi`).
pub open spec fn clamp_between(v: int, lo: int, hi: int) -> int {
    if v < lo {
        lo
    } else if v > hi {
        hi
    } else {
        v
    }
}

fn clamp_i64(v: i64, lo: i64, hi: i64) -> (r: i64)
    requires
        lo <= hi,
    ensures
        r == clamp_between(v as int, lo as int, hi as int),
{
    if v < lo {
        lo
    } else if v > hi {
        hi
    } else {
        v
    }
}

/// The byte range `start..end` of a text of length `len`, each end clamped
/// into the text and the end kept at or after the start.
pub open spec fn range_start(len: int, start: int) -> int {
    clamp_between(start, 0, len)
}

pub open spec fn range_end(len: int, start: int, end: int) -> int {
    clamp_between(end, range_start(len, start), len)
}

/// The bytes of the text in `text_range_spec(start, end)`: both ends
/// clamped into the text and moved to character boundaries, empty when the
/// end is not after the start; a null text gives an empty text.
pub fn sarif_text_slice(text: Option<&[u8]>, start: i64, end: i64) -> (r: Vec<u8>)
    requires
        text matches Some(t) ==> starts_at_char(t@),
    ensures
        r@ == match text {
            Some(t) => t@.subrange(
                text_range_spec(t@, start as int, end as int).0,
                text_range_spec(t@, start as int, end as int).1,
            ),
            None => Seq::empty(),
        },
{
    match text {
        None => Vec::new(),
        Some(t) => {
            let (s, e) = text_range(t, start, end);
            let mut out: Vec<u8> = Vec::new();
            let mut i: usize = s;
            while i < e
                invariant
                    s <= i <= e,
                    e <= t.len(),
                    out@ == t@.subrange(s as int, i as int),
                decreases e - i,
            {
                out.push(t[i]);
                assert(t@.subrange(s as int, i + 1) =~= t@.subrange(s as int, i as int).push(
                    t@[i as int],
                ));
                i = i + 1;
            }
            out
        },
    }
}

/// The byte at `index` clamped into the text; 0 for a null or empty text.
pub fn sarif_bytes_byte(bytes: Option<&[u8]>, index: i64) -> (r: i64)
    requires
        bytes matches Some(t) ==> t@.len() <= i64::MAX,
    ensures
        r == match bytes {
            Some(t) => if t@.len() == 0 {
                0int
            } else {
                t@[clamp_between(index as int, 0, t@.len() - 1)] as int
            },
            None => 0int,
        },
{
    match bytes {
        None => 0,
        Some(t) => {
            if t.len() == 0 {
                return 0;
            }
            let idx = clamp_i64(index, 0, t.len() as i64 - 1) as usize;
            t[idx] as i64
        },
    }
}

/// Whether the range `text_range_spec(start, end)` of `source` (both ends
/// clamped into the text and moved to character boundaries) holds exactly
/// `expected`; 0 when either text is null.
pub fn sarif_text_eq_range(source: Option<&[u8]>, start: i64, end: i64, expected: Option<&[u8]>) -> (r: i64)
    requires
        source matches Some(t) ==> starts_at_char(t@),
    ensures
        r == match (source, expected) {
            (Some(s), Some(x)) => if s@.subrange(
                text_range_spec(s@, start as int, end as int).0,
                text_range_spec(s@, start as int, end as int).1,
            ) == x@ {
                1int
            } else {
                0int
            },
            _ => 0int,
        },
{
    match (source, expected) {
        (Some(src), Some(exp)) => {
            let (s, e) = text_range(src, start, end);
            if e - s != exp.len() {
                assert(src@.subrange(s as int, e as int).len() != exp@.len());
                assert(src@.subrange(s as int, e as int) != exp@);
                return 0;
            }
            let mut i: usize = 0;
            while i < exp.len()
                invariant
                    i <= exp.len(),
                    e - s == exp.len(),
                    source == Some(src),
                    expected == Some(exp),
                    s == text_range_spec(src@, start as int, end as int).0,
                    e == text_range_spec(src@, start as int, end as int).1,
                    s <= e <= src.len(),
                    forall|k: int| 0 <= k < i ==> src@[s + k] == exp@[k],
                decreases exp.len() - i,
            {
                if src[s + i] != exp[i] {
                    assert(src@.subrange(s as int, e as int)[i as int] != exp@[i as int]);
                    assert(src@.subrange(s as int, e as int) != exp@);
                    return 0;
                }
                i = i + 1;
            }
            assert(src@.subrange(s as int, e as int) =~= exp@);
            1
        },
        _ => 0,
    }
}

/// The byte range of a text that the interpreter reads for `start..end`:
/// the start clamped into the text and moved forward to a character
/// boundary, the end clamped and moved back to one, and the end kept at or
/// after the start.
pub open spec fn text_range_spec(s: Seq<u8>, start: int, end: int) -> (int, int) {
    let lo = slice_start(s, clamp_index(s.len(), start)) as int;
    let raw = slice_end(s, clamp_index(s.len(), end)) as int;
    (lo, if raw < lo { lo } else { raw })
}

/// Whether the bytes can be a UTF-8 text: they do not start inside a
/// character.
pub open spec fn starts_at_char(s: Seq<u8>) -> bool {
    s.len() > 0 ==> !is_cont(s[0])
}

pub proof fn lemma_slice_end_bound(bytes: Seq<u8>, i: nat)
    requires
        i <= bytes.len(),
    ensures
        slice_end(bytes, i) <= i,
    decreases i,
{
    if i < bytes.len() && is_cont(bytes[i as int]) && i > 0 {
        lemma_slice_end_bound(bytes, (i - 1) as nat);
    }
}

/// The range `text_range_spec` gives.
pub fn text_range(bytes: &[u8], start: i64, end: i64) -> (r: (usize, usize))
    requires
        starts_at_char(bytes@),
    ensures
        r.0 as int == text_range_spec(bytes@, start as int, end as int).0,
        r.1 as int == text_range_spec(bytes@, start as int, end as int).1,
        r.0 <= r.1 <= bytes@.len(),
{
    let lo = clamp_text_slice_start(bytes, start);
    let raw = clamp_text_slice_end(bytes, end);
    proof {
        lemma_slice_end_bound(bytes@, clamp_index(bytes@.len(), end as int));
    }
    if raw < lo {
        (lo, lo)
    } else {
        (lo, raw)
    }
}

/// The first position in `lo..hi` holding `b`, or `hi`.
pub open spec fn first_index_of(s: Seq<u8>, lo: int, hi: int, b: int) -> int
    decreases hi - lo,
{
    if lo >= hi {
        hi
    } else if s[lo] as int == b {
        lo
    } else {
        first_index_of(s, lo + 1, hi, b)
    }
}

/// The first position of `byte` (taken modulo 256) in the range
/// `text_range_spec(start, end)` of the text, or the end of that range when
/// it does not occur; `end` itself for a null text.
pub open spec fn spec_find_byte(t: Option<Seq<u8>>, start: int, end: int, byte: int) -> int {
    match t {
        None => end,
        Some(s) => {
            let (lo, hi) = text_range_spec(s, start, end);
            first_index_of(s, lo, hi, byte % 256)
        },
    }
}

pub fn sarif_text_find_byte_range(source: Option<&[u8]>, start: i64, end: i64, byte: i64) -> (r: i64)
    requires
        source matches Some(t) ==> t@.len() <= i64::MAX && starts_at_char(t@),
    ensures
        r == spec_find_byte(opt_bytes(source), start as int, end as int, byte as int),
{
    match source {
        None => end,
        Some(src) => {
            let (s, e) = text_range(src, start, end);
            let needle = (byte % 256 + 256) % 256;
            let needle = needle as u8;
            assert(needle as int == byte as int % 256);
            let mut i: usize = s;
            while i < e
                invariant
                    s <= i <= e,
                    e <= src.len(),
                    src@.len() <= i64::MAX,
                    opt_bytes(source) == Some(src@),
                    s == text_range_spec(src@, start as int, end as int).0,
                    e == text_range_spec(src@, start as int, end as int).1,
                    needle as int == byte as int % 256,
                    first_index_of(src@, s as int, e as int, byte as int % 256) == first_index_of(
                        src@,
                        i as int,
                        e as int,
                        byte as int % 256,
                    ),
                decreases e - i,
            {
                if src[i] == needle {
                    return i as i64;
                }
                i = i + 1;
            }
            e as i64
        },
    }
}

/// The field end (the first `byte` in the range) and one past it when the
/// separator was found inside the range and the text.
pub fn sarif_text_next_field(source: Option<&[u8]>, start: i64, end: i64, byte: i64) -> (r: i64)
    requires
        source matches Some(t) ==> t@.len() <= i64::MAX && starts_at_char(t@),
    ensures
        r == match source {
            None => end as int,
            Some(t) => {
                let f = spec_find_byte(Some(t@), start as int, end as int, byte as int);
                if f < end && f < t@.len() {
                    f + 1
                } else {
                    f
                }
            },
        },
{
    match source {
        None => end,
        Some(src) => {
            let f = sarif_text_find_byte_range(source, start, end, byte);
            if f < end && f < src.len() as i64 {
                f + 1
            } else {
                f
            }
        },
    }
}

} // verus!

verus! {

pub open spec fn is_digit(b: u8) -> bool {
    48 <= b <= 57
}

pub open spec fn all_digits(d: Seq<u8>) -> bool {
    forall|i: int| 0 <= i < d.len() ==> is_digit(#[trigger] d[i])
}

/// The value of a string of decimal digits.
pub open spec fn digits_value(d: Seq<u8>) -> nat
    decreases d.len(),
{
    if d.len() == 0 {
        0
    } else {
        digits_value(d.drop_last()) * 10 + (d.last() - 48) as nat
    }
}

/// The 32-bit integer that the text spells in base 10: an optional `+` or
/// `-`, then at least one digit, with no other character; `None` when the
/// text is not such a number or the number does not fit.
pub open spec fn parse_i32_spec(s: Seq<u8>) -> Option<int> {
    let signed = s.len() > 0 && (s[0] == 45 || s[0] == 43);
    let d = if signed {
        s.drop_first()
    } else {
        s
    };
    if d.len() == 0 || !all_digits(d) {
        None
    } else {
        let v = if s[0] == 45 {
            -(digits_value(d) as int)
        } else {
            digits_value(d) as int
        };
        if i32::MIN <= v <= i32::MAX {
            Some(v)
        } else {
            None
        }
    }
}

pub open spec fn parse_or_zero(s: Seq<u8>) -> int {
    match parse_i32_spec(s) {
        Some(v) => v,
        None => 0,
    }
}

proof fn lemma_digits_prefix_le(d: Seq<u8>, i: int)
    requires
        0 <= i <= d.len(),
    ensures
        digits_value(d.take(i)) <= digits_value(d),
    decreases d.len() - i,
{
    if i < d.len() {
        lemma_digits_prefix_le(d, i + 1);
        assert(d.take(i + 1).drop_last() =~= d.take(i));
    } else {
        assert(d.take(i) =~= d);
    }
}

/// Parses the digits `d[from..]`, failing once the value passes 2^31.
fn digits_upto(d: &[u8], from: usize) -> (r: Option<i64>)
    requires
        from <= d.len(),
    ensures
        match r {
            Some(v) => all_digits(d@.skip(from as int)) && v == digits_value(d@.skip(from as int))
                && v <= 2147483648,
            None => !all_digits(d@.skip(from as int)) || digits_value(d@.skip(from as int))
                > 2147483648,
        },
{
    let ghost ds = d@.skip(from as int);
    let mut acc: i64 = 0;
    let mut i: usize = from;
    assert(ds.take(0) =~= Seq::<u8>::empty());
    while i < d.len()
        invariant
            from <= i <= d.len(),
            ds == d@.skip(from as int),
            all_digits(ds.take(i - from)),
            acc == digits_value(ds.take(i - from)),
            acc <= 2147483648,
        decreases d.len() - i,
    {
        let b = d[i];
        assert(ds[i - from] == b);
        if b < 48 || b > 57 {
            assert(!is_digit(ds[i - from]));
            return None;
        }
        assert(ds.take(i - from + 1).drop_last() =~= ds.take(i - from));
        assert(ds.take(i - from + 1).last() == b);
        acc = acc * 10 + (b - 48) as i64;
        i = i + 1;
        if acc > 2147483648 {
            proof {
                lemma_digits_prefix_le(ds, i - from);
            }
            return None;
        }
    }
    assert(ds.take(i - from) =~= ds);
    Some(acc)
}

fn parse_i32_bytes(s: &[u8]) -> (r: i64)
    ensures
        r == parse_or_zero(s@),
{
    if s.len() == 0 {
        return 0;
    }
    let signed = s[0] == 45 || s[0] == 43;
    let from: usize = if signed {
        1
    } else {
        0
    };
    assert(s@.skip(from as int) =~= if signed {
        s@.drop_first()
    } else {
        s@
    });
    if from == s.len() {
        return 0;
    }
    match digits_upto(s, from) {
        None => 0,
        Some(v) => {
            let sv = if s[0] == 45 {
                -v
            } else {
                v
            };
            if sv < -2147483648 || sv > 2147483647 {
                0
            } else {
                sv
            }
        },
    }
}

/// The number the text spells once its surrounding white space is removed
/// (see `parse_i32_spec`), or 0.
pub fn sarif_parse_i32(text: Option<&[u8]>) -> (r: i64)
    ensures
        r == match text {
            Some(t) => parse_or_zero(trim_back(trim_front(t@))),
            None => 0,
        },
{
    match text {
        None => 0,
        Some(t) => {
            let r = parse_trimmed(t, 0, t.len());
            assert(t@.subrange(0, t@.len() as int) =~= t@);
            r
        },
    }
}

/// ASCII white space: space, tab, line feed, vertical tab, form feed and
/// carriage return.
pub open spec fn is_space(b: u8) -> bool {
    b == 32 || 9 <= b <= 13
}

fn is_space_byte(b: u8) -> (r: bool)
    ensures
        r == is_space(b),
{
    b == 32 || (9 <= b && b <= 13)
}

/// The bytes without their leading ASCII white space.
pub open spec fn trim_front(s: Seq<u8>) -> Seq<u8>
    decreases s.len(),
{
    if s.len() > 0 && is_space(s[0]) {
        trim_front(s.drop_first())
    } else {
        s
    }
}

/// The bytes without their trailing ASCII white space.
pub open spec fn trim_back(s: Seq<u8>) -> Seq<u8>
    decreases s.len(),
{
    if s.len() > 0 && is_space(s.last()) {
        trim_back(s.drop_last())
    } else {
        s
    }
}

/// The number spelled by `data[s..e]` without its surrounding white space,
/// or 0.
fn parse_trimmed(data: &[u8], s: usize, e: usize) -> (r: i64)
    requires
        s <= e <= data@.len(),
    ensures
        r == parse_or_zero(trim_back(trim_front(data@.subrange(s as int, e as int)))),
{
    let ghost whole = data@.subrange(s as int, e as int);
    if s >= e {
        assert(whole.len() == 0);
        assert(trim_back(trim_front(whole)) =~= Seq::<u8>::empty());
        return 0;
    }
    let mut idx = s;
    let mut last = e;
    while idx < last && is_space_byte(data[idx])
        invariant
            s <= idx <= last,
            last == e,
            e <= data.len(),
            trim_front(whole) == trim_front(data@.subrange(idx as int, e as int)),
        decreases last - idx,
    {
        assert(data@.subrange(idx as int, e as int).drop_first() =~= data@.subrange(
            idx + 1,
            e as int,
        ));
        idx = idx + 1;
    }
    assert(trim_front(whole) == data@.subrange(idx as int, e as int));
    while last > idx && is_space_byte(data[last - 1])
        invariant
            s <= idx <= last <= e,
            e <= data.len(),
            trim_back(trim_front(whole)) == trim_back(
                data@.subrange(idx as int, last as int),
            ),
        decreases last - idx,
    {
        assert(data@.subrange(idx as int, last as int).drop_last() =~= data@.subrange(
            idx as int,
            last - 1,
        ));
        last = last - 1;
    }
    assert(trim_back(trim_front(whole)) == data@.subrange(idx as int, last as int));
    if idx >= last {
        assert(data@.subrange(idx as int, last as int).len() == 0);
        return 0;
    }
    let piece = vstd::slice::slice_subrange(data, idx, last);
    parse_i32_bytes(piece)
}

/// The number spelled by the range `text_range_spec(start, end)` of the
/// text (both ends clamped into the text and moved to character boundaries)
/// with its surrounding white space removed, or 0.
pub fn sarif_parse_i32_range(text: Option<&[u8]>, start: i64, end: i64) -> (r: i64)
    requires
        text matches Some(t) ==> starts_at_char(t@),
    ensures
        r == match text {
            Some(t) => parse_or_zero(
                trim_back(
                    trim_front(
                        t@.subrange(
                            text_range_spec(t@, start as int, end as int).0,
                            text_range_spec(t@, start as int, end as int).1,
                        ),
                    ),
                ),
            ),
            None => 0,
        },
{
    match text {
        None => 0,
        Some(data) => {
            let (s, e) = text_range(data, start, end);
            parse_trimmed(data, s, e)
        },
    }
}

/// Concatenation: a null side gives the other side unchanged.
pub fn sarif_text_concat(left: Option<&[u8]>, right: Option<&[u8]>) -> (r: Option<Vec<u8>>)
    ensures
        match (left, right) {
            (None, _) => match right {
                Some(b) => r matches Some(v) && v@ == b@,
                None => r is None,
            },
            (Some(a), None) => r matches Some(v) && v@ == a@,
            (Some(a), Some(b)) => r matches Some(v) && v@ == a@ + b@,
        },
{
    match (left, right) {
        (None, None) => None,
        (None, Some(b)) => Some(vstd::slice::slice_to_vec(b)),
        (Some(a), None) => Some(vstd::slice::slice_to_vec(a)),
        (Some(a), Some(b)) => {
            let mut v = vstd::slice::slice_to_vec(a);
            let mut w = vstd::slice::slice_to_vec(b);
            v.append(&mut w);
            Some(v)
        },
    }
}

} // verus!

verus! {

/// The size of an arena chunk: four mebibytes, or more for a larger
/// allocation.
pub const ARENA_CHUNK_SIZE: usize = 4194304;

/// `n` rounded up to a multiple of sixteen.
pub open spec fn align16(n: int) -> int {
    (n + 15) / 16 * 16
}

proof fn lemma_align_up(n: usize, r: usize)
    requires
        r % 16 == 0,
        n <= r < n + 16,
    ensures
        r == align16(n as int),
{
    assert(r == ((n + 15) / 16) * 16) by (nonlinear_arith)
        requires
            r % 16 == 0,
            n <= r < n + 16,
    ;
}

/// What an arena holds: its chunk sizes and the current chunk and offset.
pub open spec fn arena_view(a: ScopedArena) -> (Seq<usize>, nat, nat) {
    (a.chunks@, a.current_chunk_idx as nat, a.current_offset as nat)
}

/// How an allocation of `size` bytes changes an arena (see
/// `ScopedArena::allocate`): the current chunk keeps serving while the bytes
/// fit; otherwise a fresh chunk follows the current one, replacing the
/// chunks after it.
pub open spec fn alloc_effect(a: (Seq<usize>, nat, nat), b: (Seq<usize>, nat, nat), size: int) -> bool {
    let (c0, i0, o0) = a;
    let (c1, i1, o1) = b;
    let s = align16(size);
    if i0 < c0.len() && o0 + s <= c0[i0 as int] {
        c1 == c0 && i1 == i0 && o1 == o0 + s
    } else {
        let n = if s > ARENA_CHUNK_SIZE { s } else { ARENA_CHUNK_SIZE as int };
        let kept: int = if c0.len() == 0 {
            0
        } else if i0 + 1 < c0.len() {
            (i0 + 1) as int
        } else {
            c0.len() as int
        };
        c1 == c0.take(kept).push(n as usize) && i1 == kept && o1 == s
    }
}

/// The current chunk is one of the chunks (the first, when there are none
/// yet).
pub open spec fn arena_wf(a: (Seq<usize>, nat, nat)) -> bool {
    (a.0.len() == 0 && a.1 == 0) || a.1 < a.0.len()
}

/// One allocation keeps the arena well formed, never moves back, and keeps
/// every chunk up to the current one.
pub proof fn lemma_alloc_keeps_earlier_chunks(a: (Seq<usize>, nat, nat), b: (Seq<usize>, nat, nat), size: int, i: nat)
    requires
        arena_wf(a),
        alloc_effect(a, b, size),
        i <= a.1,
    ensures
        arena_wf(b),
        b.1 >= a.1,
        i < a.0.len() ==> i < b.0.len() && b.0[i as int] == a.0[i as int],
{
}

/// A scope: a position taken by `push`, any run of allocations, and `pop`
/// back to that position. The allocations only ever move forward: the
/// chunks up to the pushed one are all still there, unchanged, so memory
/// allocated before the push stays valid, and popping returns to the
/// pushed chunk and offset.
pub proof fn lemma_scope_keeps_earlier_chunks(states: Seq<(Seq<usize>, nat, nat)>, sizes: Seq<int>, i: nat)
    requires
        states.len() == sizes.len() + 1,
        arena_wf(states[0]),
        forall|k: int| 0 <= k < sizes.len() ==> alloc_effect(states[k], states[k + 1], #[trigger] sizes[k]),
        i <= states[0].1,
    ensures
        arena_wf(states.last()),
        states.last().1 >= states[0].1,
        i < states[0].0.len() ==> i < states.last().0.len() && states.last().0[i as int] == states[0].0[i as int],
    decreases sizes.len(),
{
    if sizes.len() > 0 {
        let n = sizes.len() as int;
        let pre = states.drop_last();
        assert forall|k: int| 0 <= k < sizes.drop_last().len() implies alloc_effect(
            pre[k],
            pre[k + 1],
            #[trigger] sizes.drop_last()[k],
        ) by {
            assert(alloc_effect(states[k], states[k + 1], sizes[k]));
        }
        lemma_scope_keeps_earlier_chunks(pre, sizes.drop_last(), i);
        assert(pre.last() == states[n - 1]);
        assert(alloc_effect(states[n - 1], states[n], sizes[n - 1]));
        lemma_alloc_keeps_earlier_chunks(states[n - 1], states[n], sizes[n - 1], i);
    }
}

/// The scope law of `ScopedArena::push` and `ScopedArena::pop`, over the
/// arenas' views (`arena_view`): take a position with `push` at
/// `states[0]`, run any sequence of `ScopedArena::allocate` calls (each
/// step `alloc_effect`, as `allocate` ensures), and `pop` back to the
/// position (`popped`, as `pop` ensures): the arena is at the pushed chunk
/// and offset again, is well formed, and holds every chunk up to the pushed
/// one as it was at the push, so memory allocated before the push stays
/// valid.
pub proof fn lemma_push_alloc_pop(states: Seq<(Seq<usize>, nat, nat)>, sizes: Seq<int>, popped: (Seq<usize>, nat, nat))
    requires
        states.len() == sizes.len() + 1,
        arena_wf(states[0]),
        forall|k: int| 0 <= k < sizes.len() ==> alloc_effect(states[k], states[k + 1], #[trigger] sizes[k]),
        popped == (states.last().0, states[0].1, states[0].2),
    ensures
        popped.1 == states[0].1 && popped.2 == states[0].2,
        arena_wf(popped),
        forall|i: int| 0 <= i <= states[0].1 && i < states[0].0.len() ==> i < popped.0.len() && #[trigger] popped.0[i]
            == states[0].0[i],
{
    assert forall|i: int| 0 <= i <= states[0].1 && i < states[0].0.len() implies i < popped.0.len() && #[trigger] popped.0[i]
        == states[0].0[i] by {
        lemma_scope_keeps_earlier_chunks(states, sizes, i as nat);
    }
    if states[0].0.len() > 0 {
        lemma_scope_keeps_earlier_chunks(states, sizes, states[0].1);
    } else {
        lemma_scope_keeps_earlier_chunks(states, sizes, 0);
    }
}

/// A position in an arena, to return to later.
#[derive(Clone, Copy, Debug)]
pub struct ArenaState {
    pub chunk_index: usize,
    pub offset: usize,
}

/// A bump allocator over chunks of memory, of which only the sizes are
/// held here: an allocation is the chunk and offset it starts at.
#[derive(Debug)]
pub struct ScopedArena {
    pub chunks: Vec<usize>,
    pub current_chunk_idx: usize,
    pub current_offset: usize,
}

impl ScopedArena {
    pub fn new() -> (r: ScopedArena)
        ensures
            r.chunks@ == Seq::<usize>::empty(),
            r.current_chunk_idx == 0,
            r.current_offset == 0,
    {
        ScopedArena { chunks: Vec::new(), current_chunk_idx: 0, current_offset: 0 }
    }

    /// Allocates `size` bytes rounded up to sixteen: in the current chunk
    /// where they fit, else in a fresh chunk that replaces the chunks after
    /// the current one. Returns the chunk and the offset of the allocation.
    pub fn allocate(&mut self, size: usize) -> (r: (usize, usize))
        requires
            size + 15 <= usize::MAX,
            old(self).current_offset + align16(size as int) <= usize::MAX,
        ensures
            ({
                let a = align16(size as int);
                let fits = old(self).current_chunk_idx < old(self).chunks@.len()
                    && old(self).current_offset + a <= old(self).chunks@[old(self).current_chunk_idx as int];
                if fits {
                    &&& r == (old(self).current_chunk_idx, old(self).current_offset)
                    &&& final(self).chunks@ == old(self).chunks@
                    &&& final(self).current_chunk_idx == old(self).current_chunk_idx
                    &&& final(self).current_offset == old(self).current_offset + a
                } else {
                    let n = if a > ARENA_CHUNK_SIZE {
                        a
                    } else {
                        ARENA_CHUNK_SIZE as int
                    };
                    let kept = if old(self).chunks@.len() == 0 {
                        0
                    } else if old(self).current_chunk_idx + 1 < old(self).chunks@.len() {
                        old(self).current_chunk_idx + 1
                    } else {
                        old(self).chunks@.len() as int
                    };
                    &&& final(self).chunks@ == old(self).chunks@.take(kept).push(n as usize)
                    &&& final(self).current_chunk_idx == kept
                    &&& final(self).current_offset == a
                    &&& r == (kept as usize, 0usize)
                }
            }),
            alloc_effect(
                arena_view(*old(self)),
                arena_view(*final(self)),
                size as int,
            ),
            r.0 < final(self).chunks@.len(),
            r.1 + align16(size as int) <= final(self).chunks@[r.0 as int],
            final(self).current_chunk_idx == r.0,
            final(self).current_offset == r.1 + align16(size as int),
    {
        let aligned = arena_align_up(size);
        proof {
            lemma_align_up(size, aligned);
        }
        if self.current_chunk_idx < self.chunks.len() && self.current_offset + aligned
            <= self.chunks[self.current_chunk_idx] {
            let loc = (self.current_chunk_idx, self.current_offset);
            self.current_offset = self.current_offset + aligned;
            return loc;
        }
        let new_chunk_size = if aligned > ARENA_CHUNK_SIZE {
            aligned
        } else {
            ARENA_CHUNK_SIZE
        };
        if self.chunks.len() == 0 {
            self.chunks.push(new_chunk_size);
            self.current_chunk_idx = 0;
        } else {
            if self.current_chunk_idx < self.chunks.len() - 1 {
                self.chunks.truncate(self.current_chunk_idx + 1);
            }
            self.chunks.push(new_chunk_size);
            self.current_chunk_idx = self.chunks.len() - 1;
        }
        assert(self.chunks@ =~= old(self).chunks@.take(self.current_chunk_idx as int).push(new_chunk_size));
        self.current_offset = aligned;
        (self.current_chunk_idx, 0)
    }

    /// The current position.
    pub fn push(&self) -> (r: ArenaState)
        ensures
            r.chunk_index == self.current_chunk_idx,
            r.offset == self.current_offset,
    {
        ArenaState { chunk_index: self.current_chunk_idx, offset: self.current_offset }
    }

    /// Returns to a position taken earlier; the chunks stay.
    pub fn pop(&mut self, state: ArenaState)
        ensures
            final(self).chunks@ == old(self).chunks@,
            final(self).current_chunk_idx == state.chunk_index,
            final(self).current_offset == state.offset,
    {
        self.current_chunk_idx = state.chunk_index;
        self.current_offset = state.offset;
    }
}



/// The scope law of `ScopedArena`: take a position with `push` (`saved`,
/// from `arenas[0]`), run any sequence of `allocate` calls (`arenas[k]` to
/// `arenas[k + 1]`, of `sizes[k]` bytes, as `allocate` ensures), and
/// `pop(saved)` (`popped`, as `pop` ensures): the arena is back at the
/// pushed chunk and offset, still well formed, and every chunk up to the
/// pushed one is still there, unchanged, so memory allocated before the push
/// stays valid.
pub proof fn lemma_scoped_arena_pop_restores_push(
    arenas: Seq<ScopedArena>,
    sizes: Seq<int>,
    saved: ArenaState,
    popped: ScopedArena,
)
    requires
        arenas.len() == sizes.len() + 1,
        arena_wf(arena_view(arenas[0])),
        saved.chunk_index == arenas[0].current_chunk_idx,
        saved.offset == arenas[0].current_offset,
        forall|k: int| 0 <= k < sizes.len() ==> alloc_effect(arena_view(arenas[k]), arena_view(arenas[k + 1]), #[trigger] sizes[k]),
        popped.chunks@ == arenas.last().chunks@,
        popped.current_chunk_idx == saved.chunk_index,
        popped.current_offset == saved.offset,
    ensures
        popped.current_chunk_idx == arenas[0].current_chunk_idx,
        popped.current_offset == arenas[0].current_offset,
        arena_wf(arena_view(popped)),
        arenas[0].current_chunk_idx < arenas[0].chunks@.len() ==> arenas[0].current_chunk_idx < popped.chunks@.len(),
        forall|i: int| 0 <= i <= arenas[0].current_chunk_idx && i < arenas[0].chunks@.len() ==> #[trigger] popped.chunks@[i]
            == arenas[0].chunks@[i],
{
    let states = Seq::new(arenas.len(), |k: int| arena_view(arenas[k]));
    assert forall|k: int| 0 <= k < sizes.len() implies alloc_effect(states[k], states[k + 1], #[trigger] sizes[k]) by {
        assert(states[k] == arena_view(arenas[k]));
        assert(states[k + 1] == arena_view(arenas[k + 1]));
    }
    assert(states.last() == arena_view(arenas.last()));
    assert(states[0] == arena_view(arenas[0]));
    lemma_push_alloc_pop(states, sizes, arena_view(popped));
    assert forall|i: int| 0 <= i <= arenas[0].current_chunk_idx && i < arenas[0].chunks@.len() implies #[trigger] popped.chunks@[i]
        == arenas[0].chunks@[i] by {
        assert(0 <= i <= states[0].1 && i < states[0].0.len());
        let pv = arena_view(popped);
        assert(pv.0[i] == states[0].0[i]);
    }
    if arenas[0].current_chunk_idx < arenas[0].chunks@.len() {
        let j = arenas[0].current_chunk_idx as int;
        assert(arena_view(popped).0[j] == states[0].0[j]);
    }
}

} // verus!
