use write_batch::collector::Collector;
use write_batch::constants::THREAD_LOCAL_SIZE_SHIFT;
use write_batch::entry::{key_le, EntryValue};

#[test]
fn collector_tracks_totals_and_fullness() {
    let mut c = Collector::new(THREAD_LOCAL_SIZE_SHIFT);
    assert!(c.is_empty());
    assert!(!c.is_full());
    c.put(b"abc".to_vec(), b"12".to_vec());
    assert!(!c.is_empty());
    assert_eq!(c.total_key_size, 3);
    assert_eq!(c.total_value_size, 2);
    c.put_blob(b"zz".to_vec(), 9);
    assert_eq!(c.total_key_size, 5);
    assert_eq!(c.total_value_size, 2);
    c.delete(b"q".to_vec());
    assert_eq!(c.total_key_size, 6);
    // The worker class threshold is 64 bytes: 58 more key bytes cross it.
    c.put(vec![b'k'; 58], Vec::new());
    assert!(c.is_full());
    c.clear();
    assert!(c.is_empty());
    assert_eq!(c.total_key_size, 0);
    assert_eq!(c.total_value_size, 0);
}

#[test]
fn drain_yields_entries_in_insertion_order() {
    let mut c = Collector::new(THREAD_LOCAL_SIZE_SHIFT);
    c.put(b"b".to_vec(), b"1".to_vec());
    c.delete(b"a".to_vec());
    let out = c.drain();
    assert!(c.is_empty());
    assert_eq!(out.len(), 2);
    assert_eq!(out[0].key, b"b".to_vec());
    assert!(matches!(out[1].value, EntryValue::Tombstone));
}

#[test]
fn sorted_is_stable_for_equal_keys() {
    let mut c = Collector::new(THREAD_LOCAL_SIZE_SHIFT);
    c.put(b"k".to_vec(), b"first".to_vec());
    c.put(b"a".to_vec(), b"x".to_vec());
    c.put(b"k".to_vec(), b"second".to_vec());
    c.sorted();
    let out = c.drain();
    assert_eq!(out[0].key, b"a".to_vec());
    assert_eq!(out[1].key, b"k".to_vec());
    assert_eq!(out[2].key, b"k".to_vec());
    match (&out[1].value, &out[2].value) {
        (EntryValue::Small { value: v1 }, EntryValue::Small { value: v2 }) => {
            assert_eq!(v1, b"first");
            assert_eq!(v2, b"second");
        },
        _ => panic!("expected small inline values"),
    }
}

#[test]
fn key_order_is_lexicographic_with_prefixes_first() {
    assert!(key_le(&b"".to_vec(), &b"a".to_vec()));
    assert!(key_le(&b"a".to_vec(), &b"a".to_vec()));
    assert!(key_le(&b"a".to_vec(), &b"ab".to_vec()));
    assert!(!key_le(&b"ab".to_vec(), &b"a".to_vec()));
    assert!(key_le(&b"ab".to_vec(), &b"b".to_vec()));
    assert!(!key_le(&b"b".to_vec(), &b"ab".to_vec()));
}
