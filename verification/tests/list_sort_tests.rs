use sarif_codegen::runtime_list::{sarif_list_get, sarif_list_len, sarif_list_new, sarif_list_push};
use sarif_codegen::list_sort::{
    sarif_list_sort_by_i32_field, sarif_list_sort_by_text_field, sarif_list_sort_text, IntFieldEntry,
    TextEntry, TextFieldEntry,
};

fn texts(items: &[Option<&str>]) -> Vec<TextEntry> {
    items
        .iter()
        .map(|t| TextEntry { text: t.map(|s| s.as_bytes().to_vec()) })
        .collect()
}

fn shown(items: &[TextEntry]) -> Vec<Option<String>> {
    items.iter().map(|e| e.text.as_ref().map(|b| String::from_utf8(b.clone()).unwrap())).collect()
}

#[test]
fn texts_sort_by_bytes_with_null_first() {
    let mut list = texts(&[Some("pear"), None, Some("apple"), Some("Zebra"), Some("app")]);
    sarif_list_sort_text(&mut list, 5);
    assert_eq!(
        shown(&list),
        vec![None, Some("Zebra".to_string()), Some("app".to_string()), Some("apple".to_string()), Some("pear".to_string())]
    );
}

#[test]
fn only_the_logical_prefix_is_sorted() {
    let mut list = texts(&[Some("c"), Some("b"), Some("a")]);
    sarif_list_sort_text(&mut list, 2);
    assert_eq!(shown(&list), vec![Some("b".to_string()), Some("c".to_string()), Some("a".to_string())]);
    sarif_list_sort_text(&mut list, 0);
    assert_eq!(shown(&list), vec![Some("b".to_string()), Some("c".to_string()), Some("a".to_string())]);
}

#[test]
fn integer_field_sort_is_stable() {
    let entry = |record: u64, field: i64| IntFieldEntry { record, field };
    let mut list = vec![entry(1, 5), entry(2, -3), entry(0, 0), entry(3, 5), entry(4, -3), entry(5, 1)];
    sarif_list_sort_by_i32_field(&mut list, 6);
    let order: Vec<u64> = list.iter().map(|e| e.record).collect();
    assert_eq!(order, vec![0, 2, 4, 5, 1, 3]);
}

#[test]
fn text_field_sort_puts_null_records_then_null_texts_first() {
    let entry = |record: u64, field: Option<&str>| TextFieldEntry { record, field: field.map(|s| s.as_bytes().to_vec()) };
    let mut list = vec![
        entry(7, Some("b")),
        entry(8, None),
        entry(0, Some("a")),
        entry(9, Some("a")),
        entry(10, Some("b")),
    ];
    sarif_list_sort_by_text_field(&mut list, 5);
    let order: Vec<u64> = list.iter().map(|e| e.record).collect();
    assert_eq!(order, vec![0, 8, 9, 7, 10]);
}

#[test]
fn new_lists_hold_their_elements() {
    let small = sarif_list_new(-3, 9);
    assert!(small.slots.is_empty());
    let two = sarif_list_new(2, 7);
    assert_eq!(sarif_list_len(Some(&two)), 2);
    assert_eq!(two.slots, vec![7, 7]);
    let big = sarif_list_new(6, 1);
    assert_eq!(sarif_list_len(Some(&big)), 6);
    assert_eq!(sarif_list_len(None), 0);
}

#[test]
fn push_writes_or_appends_and_get_reads_back() {
    let mut list = sarif_list_new(4, 7);
    sarif_list_push(&mut list, 2, -1);
    assert_eq!(list.slots, vec![7, 7, -1, 7]);
    sarif_list_push(&mut list, 4, 42);
    assert_eq!(sarif_list_len(Some(&list)), 5);
    assert_eq!(list.slots, vec![7, 7, -1, 7, 42]);
    assert_eq!(sarif_list_get(Some(&list), 4), 42);
    assert_eq!(sarif_list_get(Some(&list), 5), 0);
    assert_eq!(sarif_list_get(Some(&list), -1), 0);
    assert_eq!(sarif_list_get(None, 0), 0);
}
