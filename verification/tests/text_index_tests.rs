use sarif_codegen::runtime::text_index_hash;
use sarif_codegen::text_index::TextIndex;

#[test]
fn empty_index_has_no_keys() {
    let index = TextIndex::new();
    assert_eq!(index.get(7), 0);
    assert_eq!(index.contains(7), 0);
    assert!(index.keys().is_empty());
    assert_eq!(index.entries.len(), 8);
}

#[test]
fn get_after_set_returns_the_value() {
    let mut index = TextIndex::new();
    index.set(42, -5);
    index.set(7, 11);
    assert_eq!(index.get(42), -5);
    assert_eq!(index.get(7), 11);
    assert_eq!(index.contains(42), 1);
    assert_eq!(index.get(8), 0);
    index.set(42, 99);
    assert_eq!(index.get(42), 99);
    assert_eq!(index.get(7), 11);
    assert_eq!(index.len, 2);
}

#[test]
fn get_or_insert_keeps_the_first_value() {
    let mut index = TextIndex::new();
    assert_eq!(index.get_or_insert(3, 30), 30);
    assert_eq!(index.get_or_insert(3, 31), 30);
    assert_eq!(index.get(3), 30);
    assert_eq!(index.len, 1);
}

#[test]
fn growing_keeps_every_key() {
    let mut index = TextIndex::new();
    for k in 0..100u64 {
        index.set(k * 1_000_003, k as i64 + 1);
    }
    assert!(index.entries.len() >= 128);
    for k in 0..100u64 {
        assert_eq!(index.get(k * 1_000_003), k as i64 + 1);
    }
    let mut keys = index.keys();
    keys.sort();
    let expected: Vec<u64> = (0..100u64).map(|k| k * 1_000_003).collect();
    assert_eq!(keys, expected);
}

#[test]
fn the_seventh_key_doubles_the_slots() {
    let mut index = TextIndex::new();
    for k in 0..7u64 {
        index.set(k, 1);
    }
    assert_eq!(index.entries.len(), 8);
    index.set(100, 1);
    assert_eq!(index.entries.len(), 16);
    assert_eq!(index.len, 8);
}

#[test]
fn keys_come_in_slot_order() {
    let mut index = TextIndex::new();
    index.set(1, 10);
    index.set(2, 20);
    let keys = index.keys();
    let slot = |k: u64| (text_index_hash(k) as usize) % 8;
    let mut expected = vec![1u64, 2];
    expected.sort_by_key(|k| slot(*k));
    if slot(1) != slot(2) {
        assert_eq!(keys, expected);
    } else {
        assert_eq!(keys, vec![1, 2]);
    }
}
