use write_batch::batch::WriteBatch;
use write_batch::blob::decode_blob;

#[test]
fn blob_header_is_the_big_endian_length() {
    let value = vec![42u8; 300];
    let mut b = WriteBatch::new(1, 0);
    b.put(0, 0, b"k".to_vec(), &value).unwrap();
    let r = b.finish().unwrap();
    let data = &r.new_blob_files[0].data;
    assert_eq!(&data[0..4], &[0u8, 0, 1, 44]);
    let decoded = decode_blob(data).unwrap();
    assert_eq!(decoded.len(), 300);
    assert_eq!(decoded, value);
}

#[test]
fn decode_rejects_short_and_corrupt_frames() {
    assert!(decode_blob(&[]).is_none());
    assert!(decode_blob(&[0, 0, 0]).is_none());
    // A frame that claims 8 bytes but carries no valid block.
    assert!(decode_blob(&[0, 0, 0, 8, 0xff]).is_none());
}

#[test]
fn just_over_medium_value_round_trips() {
    let mut b = WriteBatch::new(1, 0);
    b.put(0, 0, b"k".to_vec(), &vec![9u8; 65]).unwrap();
    let r = b.finish().unwrap();
    let decoded = decode_blob(&r.new_blob_files[0].data).unwrap();
    assert_eq!(decoded, vec![9u8; 65]);
}

#[test]
fn empty_value_frame_decodes_to_nothing() {
    // The engine never frames an empty value (only oversized values
    // divert); a header claiming zero bytes with no block behind it is not
    // a well-formed frame.
    assert!(decode_blob(&[0, 0, 0, 0]).is_none());
}
