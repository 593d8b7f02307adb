use sarif_codegen::runtime::{
    arena_align_up, clamp_fixed_decimal_digits, clamp_text_slice_end, clamp_text_slice_start, is_utf8_continuation,
    sarif_bytes_byte, sarif_parse_i32, sarif_parse_i32_range, sarif_text_cmp, sarif_text_concat, sarif_text_eq,
    sarif_text_eq_range, sarif_text_find_byte_range, sarif_text_next_field, sarif_text_slice, text_index_hash,
    ScopedArena, ARENA_CHUNK_SIZE,
};

#[test]
fn arena_alignment_rounds_up_to_sixteen() {
    assert_eq!(arena_align_up(0), 0);
    assert_eq!(arena_align_up(1), 16);
    assert_eq!(arena_align_up(16), 16);
    assert_eq!(arena_align_up(17), 32);
}

#[test]
fn text_index_hash_is_fnv1a_of_the_key_bytes() {
    let mut h: u32 = 0x811c9dc5;
    for b in 0x0102030405060708u64.to_le_bytes() {
        h ^= b as u32;
        h = h.wrapping_mul(0x01000193);
    }
    assert_eq!(text_index_hash(0x0102030405060708), h);
}

#[test]
fn continuation_bytes_and_slice_clamps() {
    assert!(is_utf8_continuation(0x80));
    assert!(!is_utf8_continuation(b'a'));
    let text = "aé b".as_bytes();
    assert_eq!(clamp_text_slice_start(text, 2), 3);
    assert_eq!(clamp_text_slice_end(text, 2), 1);
    assert_eq!(clamp_text_slice_start(text, -4), 0);
    assert_eq!(clamp_text_slice_end(text, 99), text.len());
}

#[test]
fn fixed_decimal_digits_are_clamped() {
    assert_eq!(clamp_fixed_decimal_digits(-3), 0);
    assert_eq!(clamp_fixed_decimal_digits(7), 7);
    assert_eq!(clamp_fixed_decimal_digits(5000), 1000);
}

#[test]
fn text_comparison_and_equality() {
    assert_eq!(sarif_text_cmp(Some(b"abc"), Some(b"abd")), -1);
    assert_eq!(sarif_text_cmp(Some(b"b"), Some(b"ab")), 1);
    assert_eq!(sarif_text_cmp(Some(b"ab"), Some(b"ab")), 0);
    assert_eq!(sarif_text_cmp(Some(b"ab"), Some(b"abc")), -1);
    assert_eq!(sarif_text_cmp(None, Some(b"")), -1);
    assert_eq!(sarif_text_eq(Some(b"x"), Some(b"x")), 1);
    assert_eq!(sarif_text_eq(None, None), 1);
    assert_eq!(sarif_text_eq(None, Some(b"")), 0);
}

#[test]
fn text_slices_and_bytes() {
    assert_eq!(sarif_text_slice(Some(b"hello"), 1, 3), b"el".to_vec());
    assert_eq!(sarif_text_slice(Some(b"hello"), -5, 99), b"hello".to_vec());
    assert_eq!(sarif_text_slice(Some(b"hello"), 4, 2), Vec::<u8>::new());
    assert_eq!(sarif_text_slice(None, 0, 1), Vec::<u8>::new());
    assert_eq!(sarif_text_slice(Some("héllo".as_bytes()), 0, 2), b"h".to_vec());
    assert_eq!(sarif_text_slice(Some("héllo".as_bytes()), 2, 4), b"l".to_vec());
    assert_eq!(sarif_text_slice(Some("héllo".as_bytes()), 1, 4), "él".as_bytes().to_vec());
    assert_eq!(sarif_bytes_byte(Some(b"abc"), 1), b'b' as i64);
    assert_eq!(sarif_bytes_byte(Some(b"abc"), 10), b'c' as i64);
    assert_eq!(sarif_bytes_byte(Some(b""), 0), 0);
    assert_eq!(sarif_text_concat(Some(b"ab"), Some(b"cd")), Some(b"abcd".to_vec()));
    assert_eq!(sarif_text_concat(None, Some(b"cd")), Some(b"cd".to_vec()));
    assert_eq!(sarif_text_concat(None, None), None);
}

#[test]
fn ranges_and_fields() {
    assert_eq!(sarif_text_eq_range(Some(b"key=value"), 0, 3, Some(b"key")), 1);
    assert_eq!(sarif_text_eq_range(Some(b"key=value"), 4, 100, Some(b"value")), 1);
    assert_eq!(sarif_text_eq_range(Some(b"key=value"), 0, 2, Some(b"key")), 0);
    assert_eq!(sarif_text_eq_range(Some("h\u{e9}llo".as_bytes()), 0, 2, Some(b"h")), 1);
    assert_eq!(sarif_text_eq_range(Some("h\u{e9}llo".as_bytes()), 2, 5, Some(b"ll")), 1);
    assert_eq!(sarif_text_find_byte_range(Some(b"a,b,c"), 0, 5, b',' as i64), 1);
    assert_eq!(sarif_text_find_byte_range(Some(b"a,b,c"), 2, 5, b',' as i64), 3);
    assert_eq!(sarif_text_find_byte_range(Some(b"abc"), 0, 3, b',' as i64), 3);
    assert_eq!(sarif_text_find_byte_range(Some(b"abc"), 0, 10, b'z' as i64), 3);
    assert_eq!(sarif_text_next_field(Some(b"a,b"), 0, 3, b',' as i64), 2);
    assert_eq!(sarif_text_next_field(Some(b"ab"), 0, 2, b',' as i64), 2);
}

#[test]
fn integer_parsing() {
    assert_eq!(sarif_parse_i32(Some(b"42")), 42);
    assert_eq!(sarif_parse_i32(Some(b"-17")), -17);
    assert_eq!(sarif_parse_i32(Some(b"+5")), 5);
    assert_eq!(sarif_parse_i32(Some(b"2147483648")), 0);
    assert_eq!(sarif_parse_i32(Some(b"4x")), 0);
    assert_eq!(sarif_parse_i32(None), 0);
    assert_eq!(sarif_parse_i32(Some(b" 42")), 42);
    assert_eq!(sarif_parse_i32(Some(b"\t-7 \n")), -7);
    assert_eq!(sarif_parse_i32(Some(b"   ")), 0);
    assert_eq!(sarif_parse_i32_range(Some(b"x=  12 ;"), 2, 7), 12);
    assert_eq!(sarif_parse_i32_range(Some("\u{e9}12".as_bytes()), 1, 4), 12);
    assert_eq!(sarif_parse_i32_range(Some("7\u{e9}".as_bytes()), 0, 2), 7);
}

#[test]
fn arena_bumps_within_a_chunk_and_returns_to_a_position() {
    let mut arena = ScopedArena::new();
    assert_eq!(arena.allocate(10), (0, 0));
    assert_eq!(arena.allocate(20), (0, 16));
    let mark = arena.push();
    assert_eq!(arena.allocate(1), (0, 48));
    arena.pop(mark);
    assert_eq!(arena.allocate(1), (0, 48));
    assert_eq!(arena.allocate(ARENA_CHUNK_SIZE), (1, 0));
    assert_eq!(arena.chunks, vec![ARENA_CHUNK_SIZE, ARENA_CHUNK_SIZE]);
    assert_eq!(arena.current_offset, ARENA_CHUNK_SIZE);
}

#[test]
fn a_scope_keeps_the_chunks_allocated_before_it() {
    let mut arena = ScopedArena::new();
    arena.allocate(100);
    let mark = arena.push();
    let before = arena.chunks.clone();
    arena.allocate(ARENA_CHUNK_SIZE);
    arena.allocate(ARENA_CHUNK_SIZE * 2);
    arena.pop(mark);
    assert_eq!(arena.current_chunk_idx, 0);
    assert_eq!(arena.current_offset, 112);
    assert_eq!(arena.chunks[0], before[0]);
    assert_eq!(arena.allocate(16), (0, 112));
}
