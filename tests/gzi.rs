use cram_codec::gzi::{parse_index, IndexError, Reader};

#[test]
fn test_read_index() {
    let data = [
        0x02, 0x00, 0x00, 0x00, 0x00, 0x00, 0x00, 0x00, // len = 2
        0x3c, 0x12, 0x00, 0x00, 0x00, 0x00, 0x00, 0x00, // compressed_offset = 4668
        0x2e, 0x53, 0x00, 0x00, 0x00, 0x00, 0x00, 0x00, // uncompressed_offset = 21294
        0x02, 0x5d, 0x00, 0x00, 0x00, 0x00, 0x00, 0x00, // compressed_offset = 23810
        0x01, 0x52, 0x01, 0x00, 0x00, 0x00, 0x00, 0x00, // uncompressed_offset = 86529
    ];

    let mut reader = Reader::new(&data[..]);
    assert_eq!(
        parse_index(*reader.get_mut()),
        Ok(vec![(4668, 21294), (23810, 86529)])
    );
}

#[test]
fn test_read_index_with_no_entries() {
    let data = [0x00, 0x00, 0x00, 0x00, 0x00, 0x00, 0x00, 0x00]; // len = 0

    let index = parse_index(&data).unwrap();
    assert!(index.is_empty());
}

#[test]
fn test_read_index_with_fewer_than_len_entries() {
    let data = [
        0x03, 0x00, 0x00, 0x00, 0x00, 0x00, 0x00, 0x00, // len = 3
        0x3c, 0x12, 0x00, 0x00, 0x00, 0x00, 0x00, 0x00, // compressed_offset = 4668
        0x2e, 0x53, 0x00, 0x00, 0x00, 0x00, 0x00, 0x00, // uncompressed_offset = 21294
        0x02, 0x5d, 0x00, 0x00, 0x00, 0x00, 0x00, 0x00, // compressed_offset = 23810
        0x01, 0x52, 0x01, 0x00, 0x00, 0x00, 0x00, 0x00, // uncompressed_offset = 86529
    ];

    assert_eq!(parse_index(&data), Err(IndexError::UnexpectedEof));
}

#[test]
fn test_read_index_with_trailing_data() {
    let data = [
        0x01, 0x00, 0x00, 0x00, 0x00, 0x00, 0x00, 0x00, // len = 1
        0x3c, 0x12, 0x00, 0x00, 0x00, 0x00, 0x00, 0x00, // compressed_offset = 4668
        0x2e, 0x53, 0x00, 0x00, 0x00, 0x00, 0x00, 0x00, // uncompressed_offset = 21294
        0x00,
    ];

    assert_eq!(parse_index(&data), Err(IndexError::TrailingData));
}

#[test]
fn index_with_short_count() {
    assert_eq!(parse_index(&[0x01, 0x00]), Err(IndexError::UnexpectedEof));
    assert_eq!(parse_index(&[]), Err(IndexError::UnexpectedEof));
}

#[test]
fn index_with_huge_count() {
    let data = [0xff; 8];
    assert_eq!(parse_index(&data), Err(IndexError::UnexpectedEof));
}

#[test]
fn reader_hands_back_its_source() {
    let data = [1u8, 2, 3];
    let reader = Reader::new(&data[..]);
    assert_eq!(reader.into_inner(), &[1, 2, 3]);
}
