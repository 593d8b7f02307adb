use sarif_codegen::byte_access::{
    sarif_bytes_len, sarif_bytes_materialize, sarif_bytes_to_text, sarif_text_intern, sarif_text_len, sarif_text_to_bytes,
    sarif_bytes_byte_i64, sarif_bytes_load_bool, sarif_bytes_load_i32, sarif_bytes_load_i32_i64,
    sarif_bytes_load_i64, sarif_bytes_load_i64_i64, sarif_bytes_slice_i64, sarif_bytes_store_bool,
    sarif_bytes_store_i32, sarif_bytes_store_i64,
};
use sarif_codegen::text_builder::{
    sarif_text_builder_append, sarif_text_builder_append_ascii, sarif_text_builder_append_codepoint,
    sarif_text_builder_append_i32, sarif_text_builder_append_slice, sarif_text_builder_finish, sarif_text_builder_new,
};

#[test]
fn load_i32_reads_little_endian() {
    let bytes = [0x78u8, 0x56, 0x34, 0x12, 0xff, 0xff, 0xff, 0xff];
    assert_eq!(sarif_bytes_load_i32(Some(&bytes), 0), 0x12345678);
    assert_eq!(sarif_bytes_load_i32(Some(&bytes), 4), -1);
    assert_eq!(sarif_bytes_load_i32_i64(Some(&bytes), 2), 0xffff1234u32 as i32 as i64);
}

#[test]
fn load_outside_the_buffer_gives_zero() {
    let bytes = [1u8, 2, 3, 4];
    assert_eq!(sarif_bytes_load_i32(Some(&bytes), 1), 0);
    assert_eq!(sarif_bytes_load_i32(Some(&bytes), -5), 0);
    assert_eq!(sarif_bytes_load_i32(None, 0), 0);
    assert_eq!(sarif_bytes_load_i64(Some(&bytes), 0), 0);
}

#[test]
fn store_then_load_i32_wraps_to_32_bits() {
    let mut bytes = vec![0u8; 6];
    sarif_bytes_store_i32(&mut bytes, 1, -2);
    assert_eq!(bytes, vec![0, 0xfe, 0xff, 0xff, 0xff, 0]);
    assert_eq!(sarif_bytes_load_i32(Some(&bytes), 1), -2);
    sarif_bytes_store_i32(&mut bytes, 2, 0x1_0000_0005);
    assert_eq!(sarif_bytes_load_i32(Some(&bytes), 2), 5);
    assert_eq!(bytes[0], 0);
    assert_eq!(bytes[1], 0xfe);
}

#[test]
fn store_then_load_i64_round_trips() {
    let mut bytes = vec![7u8; 10];
    sarif_bytes_store_i64(&mut bytes, 1, i64::MIN);
    assert_eq!(sarif_bytes_load_i64(Some(&bytes), 1), i64::MIN);
    assert_eq!(bytes[0], 7);
    assert_eq!(bytes[9], 7);
    sarif_bytes_store_i64(&mut bytes, 2, 0x0102030405060708);
    assert_eq!(&bytes[2..10], &[8, 7, 6, 5, 4, 3, 2, 1]);
    assert_eq!(sarif_bytes_load_i64_i64(Some(&bytes), 2), 0x0102030405060708);
}

#[test]
fn store_outside_the_buffer_changes_nothing() {
    let mut bytes = vec![1u8, 2, 3];
    sarif_bytes_store_i32(&mut bytes, 0, 99);
    sarif_bytes_store_i64(&mut bytes, -9, 99);
    sarif_bytes_store_bool(&mut bytes, 3, 1);
    assert_eq!(bytes, vec![1, 2, 3]);
}

#[test]
fn bool_bytes_hold_flags() {
    let mut bytes = vec![0u8; 3];
    sarif_bytes_store_bool(&mut bytes, 1, 42);
    assert_eq!(bytes, vec![0, 1, 0]);
    assert_eq!(sarif_bytes_load_bool(Some(&bytes), 1), 1);
    assert_eq!(sarif_bytes_load_bool(Some(&bytes), 2), 0);
    assert_eq!(sarif_bytes_load_bool(Some(&bytes), 3), 0);
    sarif_bytes_store_bool(&mut bytes, 1, 0);
    assert_eq!(bytes, vec![0, 0, 0]);
}

#[test]
fn byte_reads_are_bounds_checked() {
    let bytes = [10u8, 20, 30];
    assert_eq!(sarif_bytes_byte_i64(Some(&bytes), 2), 30);
    assert_eq!(sarif_bytes_byte_i64(Some(&bytes), 3), 0);
    assert_eq!(sarif_bytes_byte_i64(Some(&bytes), -1), 0);
    assert_eq!(sarif_bytes_byte_i64(None, 0), 0);
}

#[test]
fn slices_by_length_are_cut_to_the_buffer() {
    let bytes = [1u8, 2, 3, 4, 5];
    assert_eq!(sarif_bytes_slice_i64(Some(&bytes), 1, 2), vec![2, 3]);
    assert_eq!(sarif_bytes_slice_i64(Some(&bytes), 3, 10), vec![4, 5]);
    assert_eq!(sarif_bytes_slice_i64(Some(&bytes), 9, 2), Vec::<u8>::new());
    assert_eq!(sarif_bytes_slice_i64(Some(&bytes), -1, 2), Vec::<u8>::new());
    assert_eq!(sarif_bytes_slice_i64(Some(&bytes), 1, -2), Vec::<u8>::new());
    assert_eq!(sarif_bytes_slice_i64(None, 0, 2), Vec::<u8>::new());
}

#[test]
fn builder_appends_code_points_as_utf8() {
    let mut b = sarif_text_builder_new();
    sarif_text_builder_append_codepoint(&mut b, 'A' as i64);
    sarif_text_builder_append_codepoint(&mut b, 0xE9);
    sarif_text_builder_append_codepoint(&mut b, 0x20AC);
    sarif_text_builder_append_codepoint(&mut b, 0x1F600);
    assert_eq!(String::from_utf8(b).unwrap(), "Aé€😀");
}

#[test]
fn builder_skips_values_that_are_not_scalars() {
    let mut b = sarif_text_builder_new();
    sarif_text_builder_append_codepoint(&mut b, 0xD800);
    sarif_text_builder_append_codepoint(&mut b, 0x110000);
    sarif_text_builder_append_codepoint(&mut b, -1);
    assert!(b.is_empty());
    sarif_text_builder_append_codepoint(&mut b, 0x1_0000_0041);
    assert_eq!(b, b"A".to_vec());
}

#[test]
fn builder_appends_numbers_bytes_and_slices() {
    let mut b = sarif_text_builder_new();
    sarif_text_builder_append_i32(&mut b, -42);
    sarif_text_builder_append_ascii(&mut b, 0x120);
    sarif_text_builder_append_i32(&mut b, 0);
    sarif_text_builder_append(&mut b, Some(b", "));
    sarif_text_builder_append(&mut b, None);
    sarif_text_builder_append_slice(&mut b, Some(b"hello"), 1, 3);
    sarif_text_builder_append_slice(&mut b, Some(b"hello"), 4, 2);
    sarif_text_builder_append_slice(&mut b, Some(b"!?"), -5, 100);
    sarif_text_builder_append_slice(&mut b, None, 0, 1);
    assert_eq!(String::from_utf8(b).unwrap(), "-42 0, el!?");
}

#[test]
fn builder_renders_the_extreme_numbers() {
    let mut b = sarif_text_builder_new();
    sarif_text_builder_append_i32(&mut b, i64::MIN);
    assert_eq!(String::from_utf8(b).unwrap(), i64::MIN.to_string());
}

#[test]
fn copies_and_lengths_treat_null_as_empty() {
    assert_eq!(sarif_text_len(Some(b"abc")), 3);
    assert_eq!(sarif_text_len(None), 0);
    assert_eq!(sarif_bytes_len(b"ab"), 2);
    assert_eq!(sarif_text_intern(Some(b"hi")), b"hi".to_vec());
    assert_eq!(sarif_text_intern(None), Vec::<u8>::new());
    assert_eq!(sarif_bytes_materialize(Some(&[1, 2])), vec![1, 2]);
    assert_eq!(sarif_bytes_materialize(None), Vec::<u8>::new());
    assert_eq!(sarif_bytes_to_text(Some(b"x")), b"x".to_vec());
    assert_eq!(sarif_bytes_to_text(None), Vec::<u8>::new());
    assert_eq!(sarif_text_to_bytes(Some(b"yz")), Some(b"yz".to_vec()));
    assert_eq!(sarif_text_to_bytes(None), None);
}

#[test]
fn finishing_a_builder_gives_its_text() {
    let mut b = sarif_text_builder_new();
    sarif_text_builder_append(&mut b, Some(b"done"));
    assert_eq!(sarif_text_builder_finish(b), b"done".to_vec());
}
