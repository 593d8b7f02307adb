//! The text builder of the native runtime: a growing byte buffer that texts,
//! slices of texts, code points, ASCII bytes and decimal numbers are appended
//! to. A text is its UTF-8 bytes; `None` stands for a null text handle.
use vstd::prelude::*;
use crate::byte_access::{pattern, pattern64};
use crate::runtime::pow256;
use crate::runtime::{range_start, range_end, opt_bytes};

verus! {

/// Whether `c` is a Unicode scalar value (a code point that is not a
/// surrogate).
pub open spec fn is_scalar(c: nat) -> bool {
    c <= 0x10FFFF && !(0xD800 <= c <= 0xDFFF)
}

/// The UTF-8 encoding of a code point.
pub open spec fn utf8_encode(c: nat) -> Seq<u8> {
    if c < 0x80 {
        seq![c as u8]
    } else if c < 0x800 {
        seq![(0xC0 + c / 64) as u8, (0x80 + c % 64) as u8]
    } else if c < 0x10000 {
        seq![(0xE0 + c / 4096) as u8, (0x80 + (c / 64) % 64) as u8, (0x80 + c % 64) as u8]
    } else {
        seq![
            (0xF0 + c / 262144) as u8,
            (0x80 + (c / 4096) % 64) as u8,
            (0x80 + (c / 64) % 64) as u8,
            (0x80 + c % 64) as u8,
        ]
    }
}

/// The code point that a 64-bit argument names: its low 32 bits.
pub open spec fn code_point_of(cp: int) -> nat {
    pattern(cp, 4)
}

/// The decimal ASCII digits of a natural number, without leading zeros.
pub open spec fn nat_digits(n: nat) -> Seq<u8>
    decreases n,
{
    if n < 10 {
        seq![(48 + n) as u8]
    } else {
        nat_digits(n / 10).push((48 + n % 10) as u8)
    }
}

/// The decimal ASCII text of an integer, with a leading `-` when negative.
pub open spec fn int_digits(i: int) -> Seq<u8> {
    if i < 0 {
        seq![45u8] + nat_digits((-i) as nat)
    } else {
        nat_digits(i as nat)
    }
}

/// The bytes of a text handle; a null handle has none.
pub open spec fn text_bytes(t: Option<Seq<u8>>) -> Seq<u8> {
    match t {
        Some(b) => b,
        None => Seq::empty(),
    }
}

fn push_slice(out: &mut Vec<u8>, t: &[u8], from: usize, to: usize)
    requires
        from <= to <= t@.len(),
    ensures
        final(out)@ == old(out)@ + t@.subrange(from as int, to as int),
{
    let mut i: usize = from;
    while i < to
        invariant
            from <= i <= to <= t@.len(),
            out@ == old(out)@ + t@.subrange(from as int, i as int),
        decreases to - i,
    {
        out.push(t[i]);
        assert(t@.subrange(from as int, i + 1) =~= t@.subrange(from as int, i as int).push(t@[i as int]));
        i = i + 1;
    }
}

/// A new, empty builder.
pub fn sarif_text_builder_new() -> (r: Vec<u8>)
    ensures
        r@ == Seq::<u8>::empty(),
{
    Vec::new()
}

/// Appends the bytes of a text; a null text appends nothing.
pub fn sarif_text_builder_append(builder: &mut Vec<u8>, text: Option<&[u8]>)
    ensures
        final(builder)@ == old(builder)@ + text_bytes(opt_bytes(text)),
{
    if let Some(t) = text {
        push_slice(builder, t, 0, t.len());
        assert(t@.subrange(0, t@.len() as int) =~= t@);
    }
}

/// Appends the bytes `start..end` of a text, each end clamped into the text
/// and the end kept at or after the start; a null text appends nothing.
pub fn sarif_text_builder_append_slice(builder: &mut Vec<u8>, text: Option<&[u8]>, start: i64, end: i64)
    requires
        text matches Some(t) ==> t@.len() <= i64::MAX,
    ensures
        final(builder)@ == old(builder)@ + match text {
            Some(t) => t@.subrange(
                range_start(t@.len() as int, start as int),
                range_end(t@.len() as int, start as int, end as int),
            ),
            None => Seq::empty(),
        },
{
    if let Some(t) = text {
        let len = t.len() as i64;
        let s: i64 = if start < 0 {
            0
        } else if start > len {
            len
        } else {
            start
        };
        let e: i64 = if end < s {
            s
        } else if end > len {
            len
        } else {
            end
        };
        push_slice(builder, t, s as usize, e as usize);
    }
}

/// Appends one byte: the low eight bits of `byte`.
pub fn sarif_text_builder_append_ascii(builder: &mut Vec<u8>, byte: i64)
    ensures
        final(builder)@ == old(builder)@.push(pattern(byte as int, 1) as u8),
{
    let b = low_byte(byte);
    builder.push(b);
}

/// The low eight bits of `v`.
fn low_byte(v: i64) -> (r: u8)
    ensures
        r as nat == pattern(v as int, 1),
{
    let p = pattern64(v);
    proof {
        reveal_with_fuel(pow256, 9);
        vstd::arithmetic::div_mod::lemma_mod_mod(v as int, 256, 0x100_0000_0000_0000);
    }
    (p % 256) as u8
}

/// The low 32 bits of `v`.
fn low_u32(v: i64) -> (r: u64)
    ensures
        r as nat == pattern(v as int, 4),
        r < 0x1_0000_0000,
{
    let p = pattern64(v);
    proof {
        reveal_with_fuel(pow256, 9);
        vstd::arithmetic::div_mod::lemma_mod_mod(v as int, 0x1_0000_0000, 0x1_0000_0000);
    }
    p % 0x1_0000_0000
}

/// Appends the UTF-8 encoding of the code point in the low 32 bits of `cp`;
/// nothing when that is not a Unicode scalar value.
pub fn sarif_text_builder_append_codepoint(builder: &mut Vec<u8>, cp: i64)
    ensures
        final(builder)@ == old(builder)@ + if is_scalar(code_point_of(cp as int)) {
            utf8_encode(code_point_of(cp as int))
        } else {
            Seq::empty()
        },
{
    let c = low_u32(cp);
    if c > 0x10FFFF || (0xD800 <= c && c <= 0xDFFF) {
        assert(old(builder)@ + Seq::<u8>::empty() =~= old(builder)@);
        return;
    }
    let ghost before = builder@;
    if c < 0x80 {
        builder.push(c as u8);
    } else if c < 0x800 {
        builder.push((0xC0 + c / 64) as u8);
        builder.push((0x80 + c % 64) as u8);
    } else if c < 0x10000 {
        builder.push((0xE0 + c / 4096) as u8);
        builder.push((0x80 + (c / 64) % 64) as u8);
        builder.push((0x80 + c % 64) as u8);
    } else {
        builder.push((0xF0 + c / 262144) as u8);
        builder.push((0x80 + (c / 4096) % 64) as u8);
        builder.push((0x80 + (c / 64) % 64) as u8);
        builder.push((0x80 + c % 64) as u8);
    }
    assert(builder@ =~= before + utf8_encode(c as nat));
}

fn push_nat_digits(out: &mut Vec<u8>, n: u64)
    ensures
        final(out)@ == old(out)@ + nat_digits(n as nat),
    decreases n,
{
    if n < 10 {
        out.push((48 + n) as u8);
        assert(out@ =~= old(out)@ + nat_digits(n as nat));
    } else {
        push_nat_digits(out, n / 10);
        out.push((48 + n % 10) as u8);
        assert(out@ =~= old(out)@ + nat_digits(n as nat));
    }
}

/// Appends the decimal text of `value`.
pub fn sarif_text_builder_append_i32(builder: &mut Vec<u8>, value: i64)
    ensures
        final(builder)@ == old(builder)@ + int_digits(value as int),
{
    if value < 0 {
        builder.push(45u8);
        // The magnitude of i64::MIN does not fit in an i64, so it is computed unsigned.
        let mag: u64 = if value == i64::MIN {
            9223372036854775808u64
        } else {
            (-value) as u64
        };
        let ghost mid = builder@;
        push_nat_digits(builder, mag);
        assert(builder@ =~= old(builder)@ + int_digits(value as int));
    } else {
        push_nat_digits(builder, value as u64);
    }
}

/// The text a builder holds: its bytes, which the builder gives up.
pub fn sarif_text_builder_finish(builder: Vec<u8>) -> (r: Vec<u8>)
    ensures
        r@ == builder@,
{
    builder
}

} // verus!
