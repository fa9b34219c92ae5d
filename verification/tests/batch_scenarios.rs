use write_batch::batch::WriteBatch;
use write_batch::entry::{Entry, EntryValue};

fn key_of(e: &Entry) -> &[u8] {
    &e.key
}

fn small_value(e: &Entry) -> &[u8] {
    match &e.value {
        EntryValue::Small { value } => value,
        _ => panic!("expected a small inline value"),
    }
}

#[test]
fn single_thread_small_values_one_family() {
    let mut b = WriteBatch::new(1, 10);
    b.put(0, 0, b"a".to_vec(), b"1").unwrap();
    b.put(0, 0, b"b".to_vec(), b"2").unwrap();
    b.delete(0, 0, b"a".to_vec()).unwrap();
    let r = b.finish().unwrap();

    assert_eq!(r.new_blob_files.len(), 0);
    assert_eq!(r.new_sst_files.len(), 1);
    assert_eq!(r.sequence_number, 11);
    let sst = &r.new_sst_files[0];
    assert_eq!(sst.sequence_number, 11);
    assert_eq!(sst.family, 0);
    assert_eq!(sst.entries.len(), 3);
    // Key order, and for the duplicate key "a" the tombstone (inserted
    // later) is emitted last.
    assert_eq!(key_of(&sst.entries[0]), b"a");
    assert_eq!(small_value(&sst.entries[0]), b"1");
    assert_eq!(key_of(&sst.entries[1]), b"a");
    assert!(matches!(sst.entries[1].value, EntryValue::Tombstone));
    assert_eq!(key_of(&sst.entries[2]), b"b");
    assert_eq!(small_value(&sst.entries[2]), b"2");
    assert_eq!(sst.total_key_size, 3);
    assert_eq!(sst.total_value_size, 2);
}

#[test]
fn blob_spill_for_oversized_value() {
    let value: Vec<u8> = (0..100u32).map(|i| (i % 251) as u8).collect();
    let mut b = WriteBatch::new(1, 10);
    b.put(0, 0, b"k".to_vec(), &value).unwrap();
    let r = b.finish().unwrap();

    assert_eq!(r.new_blob_files.len(), 1);
    assert_eq!(r.new_sst_files.len(), 1);
    let blob = &r.new_blob_files[0];
    assert_eq!(blob.sequence_number, 11);
    let sst = &r.new_sst_files[0];
    assert_eq!(sst.sequence_number, 12);
    assert_eq!(r.sequence_number, 12);
    assert_eq!(sst.entries.len(), 1);
    assert_eq!(key_of(&sst.entries[0]), b"k");
    match sst.entries[0].value {
        EntryValue::Blob { sequence_number } => assert_eq!(sequence_number, 11),
        _ => panic!("expected a blob pointer"),
    }
    // The blob frames the original length big-endian, then an LZ4 block
    // that decompresses back to the value.
    assert_eq!(&blob.data[0..4], &[0, 0, 0, 100]);
    let decoded = write_batch::blob::decode_blob(&blob.data).unwrap();
    assert_eq!(decoded, value);
    // Cross-check the block against the compressor itself.
    let mut buf = vec![0u8; 100];
    let n = lzzzz::lz4::decompress(&blob.data[4..], &mut buf).unwrap();
    assert_eq!(n, 100);
    assert_eq!(buf, value);
}

#[test]
fn two_families_get_their_own_ssts() {
    let mut b = WriteBatch::new(2, 0);
    b.put(0, 0, b"x".to_vec(), b"X").unwrap();
    b.put(0, 1, b"y".to_vec(), b"Y").unwrap();
    let r = b.finish().unwrap();

    assert_eq!(r.new_sst_files.len(), 2);
    assert!(r.new_sst_files[0].sequence_number < r.new_sst_files[1].sequence_number);
    let by_family: Vec<u32> = r.new_sst_files.iter().map(|s| s.family).collect();
    let mut sorted_families = by_family.clone();
    sorted_families.sort();
    assert_eq!(sorted_families, vec![0, 1]);
    for sst in &r.new_sst_files {
        assert_eq!(sst.entries.len(), 1);
        if sst.family == 0 {
            assert_eq!(key_of(&sst.entries[0]), b"x");
        } else {
            assert_eq!(key_of(&sst.entries[0]), b"y");
        }
    }
}

#[test]
fn worker_overflow_without_filling_shared() {
    // 100 puts of ~12 bytes each overflow the 64-byte worker collector
    // several times but stay under the 4096-byte shared threshold.
    let mut b = WriteBatch::new(1, 0);
    for i in 0..100u32 {
        let key = format!("key{:04}", i).into_bytes();
        let val = format!("v{}", i).into_bytes();
        b.put(0, 0, key, &val).unwrap();
    }
    let r = b.finish().unwrap();
    assert_eq!(r.new_sst_files.len(), 1);
    let sst = &r.new_sst_files[0];
    assert_eq!(sst.entries.len(), 100);
    for w in sst.entries.windows(2) {
        assert!(w[0].key <= w[1].key);
    }
}

#[test]
fn shared_overflow_emits_ssts_mid_batch() {
    // 600 puts of ~13 bytes each cross the 4096-byte shared threshold,
    // so SSTs are emitted before finish; nothing is lost and sequence
    // numbers strictly increase.
    let mut b = WriteBatch::new(1, 0);
    let mut expected: Vec<(Vec<u8>, Vec<u8>)> = Vec::new();
    for i in 0..600u32 {
        let key = format!("key{:05}", i).into_bytes();
        let val = format!("val{}", i % 10).into_bytes();
        expected.push((key.clone(), val.clone()));
        b.put(0, 0, key, &val).unwrap();
    }
    let r = b.finish().unwrap();
    assert!(r.new_sst_files.len() >= 2);
    let mut collected: Vec<(Vec<u8>, Vec<u8>)> = Vec::new();
    let mut last_seq = 0u32;
    for sst in &r.new_sst_files {
        assert_eq!(sst.family, 0);
        assert!(sst.sequence_number > last_seq);
        last_seq = sst.sequence_number;
        for w in sst.entries.windows(2) {
            assert!(w[0].key <= w[1].key);
        }
        for e in &sst.entries {
            collected.push((e.key.clone(), small_value(e).to_vec()));
        }
    }
    assert_eq!(r.sequence_number, last_seq);
    collected.sort();
    expected.sort();
    assert_eq!(collected, expected);
}

#[test]
fn many_workers_disjoint_keys_conserved() {
    let mut b = WriteBatch::new(1, 0);
    for worker in 0..8usize {
        for i in 0..100u32 {
            let key = format!("w{}k{:04}", worker, i).into_bytes();
            b.put(worker, 0, key, b"v").unwrap();
        }
    }
    let r = b.finish().unwrap();
    let total: usize = r.new_sst_files.iter().map(|s| s.entries.len()).sum();
    assert_eq!(total, 800);
}

#[test]
fn reset_restarts_the_sequence_counter() {
    let mut b = WriteBatch::new(1, 7);
    b.put(0, 0, b"a".to_vec(), b"1").unwrap();
    let r1 = b.finish().unwrap();
    assert_eq!(r1.sequence_number, 8);
    b.reset(50);
    b.put(0, 0, b"b".to_vec(), b"2").unwrap();
    let r2 = b.finish().unwrap();
    // The next allocated sequence number after reset(50) is 51.
    assert_eq!(r2.new_sst_files[0].sequence_number, 51);
    assert_eq!(r2.sequence_number, 51);
    assert_eq!(r2.new_sst_files[0].entries.len(), 1);
}

#[test]
fn sequence_numbers_distinct_across_ssts_and_blobs() {
    let big: Vec<u8> = vec![7u8; 200];
    let mut b = WriteBatch::new(2, 100);
    b.put(0, 0, b"a".to_vec(), &big).unwrap();
    b.put(0, 1, b"b".to_vec(), b"small").unwrap();
    b.put(0, 0, b"c".to_vec(), &big).unwrap();
    let r = b.finish().unwrap();
    let mut seqs: Vec<u32> = r
        .new_sst_files
        .iter()
        .map(|s| s.sequence_number)
        .chain(r.new_blob_files.iter().map(|bf| bf.sequence_number))
        .collect();
    seqs.sort();
    for w in seqs.windows(2) {
        assert!(w[0] < w[1]);
    }
    for &s in &seqs {
        assert!(s > 100 && s <= r.sequence_number);
    }
}

#[test]
fn medium_values_keep_the_medium_hint() {
    let mut b = WriteBatch::new(1, 0);
    let medium = vec![1u8; 40];
    b.put(0, 0, b"m".to_vec(), &medium).unwrap();
    let r = b.finish().unwrap();
    match &r.new_sst_files[0].entries[0].value {
        EntryValue::Medium { value } => assert_eq!(value, &medium),
        _ => panic!("expected a medium inline value"),
    }
}

#[test]
fn empty_batch_finishes_with_nothing() {
    let mut b = WriteBatch::new(3, 42);
    let r = b.finish().unwrap();
    assert_eq!(r.sequence_number, 42);
    assert!(r.new_sst_files.is_empty());
    assert!(r.new_blob_files.is_empty());
}

#[test]
fn empty_key_and_value_are_accepted() {
    let mut b = WriteBatch::new(1, 0);
    b.put(0, 0, Vec::new(), b"").unwrap();
    b.delete(0, 0, Vec::new()).unwrap();
    let r = b.finish().unwrap();
    let sst = &r.new_sst_files[0];
    assert_eq!(sst.entries.len(), 2);
    assert_eq!(sst.entries[0].key, Vec::<u8>::new());
    assert!(matches!(sst.entries[0].value, EntryValue::Small { .. }));
    assert!(matches!(sst.entries[1].value, EntryValue::Tombstone));
    assert_eq!(sst.total_key_size, 0);
    assert_eq!(sst.total_value_size, 0);
}
