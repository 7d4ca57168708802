use std::io::Write;

use cram_codec::block::{
    read_block, write_block, Block, CompressionMethod, ContentType, DecompressError, ReadBlockError,
};

fn no_rans(_: &[u8]) -> Option<Vec<u8>> {
    None
}

fn block_of(method: CompressionMethod, data: Vec<u8>, uncompressed_len: i32) -> Block {
    Block::new(method, ContentType::ExternalData, 1, uncompressed_len, data, 0)
}

#[test]
fn uncompressed_block_decompresses_to_its_data() {
    let data = b"ACGTNNACGT".to_vec();
    let block = block_of(CompressionMethod::Uncompressed, data.clone(), 10);
    assert_eq!(block.decompressed_data(no_rans), Ok(data));

    let empty = block_of(CompressionMethod::Uncompressed, Vec::new(), 0);
    assert_eq!(empty.decompressed_data(no_rans), Ok(Vec::new()));
}

#[test]
fn gzip_block_round_trip() {
    let payload = b"noodles cram block payload, repeated payload".to_vec();
    let mut encoder = flate2::write::GzEncoder::new(Vec::new(), flate2::Compression::default());
    encoder.write_all(&payload).unwrap();
    let compressed = encoder.finish().unwrap();
    assert_ne!(compressed, payload);

    let block = block_of(CompressionMethod::Gzip, compressed, payload.len() as i32);
    assert_eq!(block.decompressed_data(no_rans), Ok(payload));
}

#[test]
fn bzip2_block_round_trip() {
    let payload = b"ACGTACGTACGTACGTTTTTGGGGCCCCAAAA".to_vec();
    let mut encoder = bzip2::write::BzEncoder::new(Vec::new(), bzip2::Compression::default());
    encoder.write_all(&payload).unwrap();
    let compressed = encoder.finish().unwrap();

    let block = block_of(CompressionMethod::Bzip2, compressed, payload.len() as i32);
    assert_eq!(block.decompressed_data(no_rans), Ok(payload));
}

#[test]
fn lzma_block_round_trip() {
    let payload = vec![7u8; 1000];
    let mut encoder = xz2::write::XzEncoder::new(Vec::new(), 6);
    encoder.write_all(&payload).unwrap();
    let compressed = encoder.finish().unwrap();

    let block = block_of(CompressionMethod::Lzma, compressed, 1000);
    assert_eq!(block.decompressed_data(no_rans), Ok(payload));
}

#[test]
fn negative_uncompressed_len_is_only_a_hint() {
    let payload = b"hint".to_vec();
    let mut encoder = flate2::write::GzEncoder::new(Vec::new(), flate2::Compression::fast());
    encoder.write_all(&payload).unwrap();
    let compressed = encoder.finish().unwrap();

    let block = block_of(CompressionMethod::Gzip, compressed, -1);
    assert_eq!(block.decompressed_data(no_rans), Ok(payload));
}

#[test]
fn corrupt_data_names_the_method() {
    let garbage = vec![0x00, 0x01, 0x02, 0x03, 0x04];
    for method in [
        CompressionMethod::Gzip,
        CompressionMethod::Bzip2,
        CompressionMethod::Lzma,
    ] {
        let block = block_of(method, garbage.clone(), 100);
        assert_eq!(
            block.decompressed_data(no_rans),
            Err(DecompressError::CorruptData(method))
        );
    }
}

#[test]
fn rans_block_uses_the_given_decoder() {
    let block = block_of(CompressionMethod::Rans, vec![1, 2, 3], 6);
    let doubled = block.decompressed_data(|src: &[u8]| {
        Some(src.iter().flat_map(|&b| [b, b]).collect())
    });
    assert_eq!(doubled, Ok(vec![1, 1, 2, 2, 3, 3]));
    assert_eq!(
        block.decompressed_data(no_rans),
        Err(DecompressError::CorruptData(CompressionMethod::Rans))
    );
}

#[test]
fn eof_block() {
    let block = Block::eof();
    assert_eq!(block.compression_method(), CompressionMethod::Uncompressed);
    assert_eq!(block.content_type(), ContentType::CompressionHeader);
    assert_eq!(block.content_id(), 0);
    assert_eq!(block.uncompressed_len(), 6);
    assert_eq!(block.data(), &[0x01, 0x00, 0x01, 0x00, 0x01, 0x00]);
    assert_eq!(block.crc32(), 0x4b01_63ee);
    assert_eq!(block.len(), 15);

    let mut buf = Vec::new();
    write_block(&mut buf, &block);
    assert_eq!(
        buf,
        [0x00, 0x01, 0x00, 0x06, 0x06, 0x01, 0x00, 0x01, 0x00, 0x01, 0x00, 0xee, 0x63, 0x01, 0x4b]
    );
}

#[test]
fn len_matches_written_size() {
    let ids = [0, 1, 127, 128, 16383, 16384, 2097151, 2097152, 268435455, 268435456, -1];
    let data_lens = [0usize, 1, 127, 128, 300, 16384];
    let uncompressed_lens = [0, 127, 128, 16384, 2097152, i32::MAX, -5];
    for &id in &ids {
        for &data_len in &data_lens {
            for &uncompressed_len in &uncompressed_lens {
                let block = Block::new(
                    CompressionMethod::Gzip,
                    ContentType::ExternalData,
                    id,
                    uncompressed_len,
                    vec![0xab; data_len],
                    0x0102_0304,
                );
                let mut buf = Vec::new();
                write_block(&mut buf, &block);
                assert_eq!(block.len(), buf.len(), "{} {} {}", id, data_len, uncompressed_len);
            }
        }
    }
}

#[test]
fn len_of_known_block() {
    // 1 + 1 + 2 (id 128) + 2 (data length 200) + 3 (16384) + 200 + 4
    let block = Block::new(
        CompressionMethod::Uncompressed,
        ContentType::CoreData,
        128,
        16384,
        vec![0; 200],
        0,
    );
    assert_eq!(block.len(), 213);
}

#[test]
fn mutable_accessors_change_one_field() {
    let mut block = Block::eof();
    *block.compression_method_mut() = CompressionMethod::Gzip;
    *block.content_type_mut() = ContentType::CoreData;
    *block.content_id_mut() = 9;
    *block.uncompressed_len_mut() = 12;
    block.data_mut().push(0xff);
    *block.crc32_mut() = 5;
    assert_eq!(block.compression_method(), CompressionMethod::Gzip);
    assert_eq!(block.content_type(), ContentType::CoreData);
    assert_eq!(block.content_id(), 9);
    assert_eq!(block.uncompressed_len(), 12);
    assert_eq!(block.data(), &[0x01, 0x00, 0x01, 0x00, 0x01, 0x00, 0xff]);
    assert_eq!(block.crc32(), 5);
}

#[test]
fn method_and_content_type_codes() {
    assert_eq!(CompressionMethod::Uncompressed.code(), 0);
    assert_eq!(CompressionMethod::Gzip.code(), 1);
    assert_eq!(CompressionMethod::Bzip2.code(), 2);
    assert_eq!(CompressionMethod::Lzma.code(), 3);
    assert_eq!(CompressionMethod::Rans.code(), 4);
    assert_eq!(ContentType::FileHeader.code(), 0);
    assert_eq!(ContentType::ExternalData.code(), 4);
    assert_eq!(ContentType::CoreData.code(), 5);
}

#[test]
fn written_block_reads_back() {
    let block = Block::new(
        CompressionMethod::Bzip2,
        ContentType::SliceHeader,
        300,
        -7,
        (0..200u8).collect(),
        0xdead_beef,
    );
    let mut buf = Vec::new();
    write_block(&mut buf, &block);
    buf.extend_from_slice(&[1, 2, 3]);

    let (read, n) = read_block(&buf).unwrap();
    assert_eq!(n, block.len());
    assert_eq!(read.compression_method(), CompressionMethod::Bzip2);
    assert_eq!(read.content_type(), ContentType::SliceHeader);
    assert_eq!(read.content_id(), 300);
    assert_eq!(read.uncompressed_len(), -7);
    assert_eq!(read.data(), block.data());
    assert_eq!(read.crc32(), 0xdead_beef);
}

#[test]
fn eof_block_reads_back() {
    let bytes = [0x00, 0x01, 0x00, 0x06, 0x06, 0x01, 0x00, 0x01, 0x00, 0x01, 0x00, 0xee, 0x63, 0x01, 0x4b];
    let (block, n) = read_block(&bytes).unwrap();
    assert_eq!(n, 15);
    assert_eq!(block.content_type(), ContentType::CompressionHeader);
    assert_eq!(block.data(), Block::eof().data());
    assert_eq!(block.crc32(), 0x4b01_63ee);
}

#[test]
fn malformed_blocks_are_refused() {
    assert_eq!(read_block(&[0x00]).err(), Some(ReadBlockError::UnexpectedEof));
    assert_eq!(read_block(&[0x09, 0x01, 0x00]).err(), Some(ReadBlockError::InvalidCompressionMethod(9)));
    assert_eq!(read_block(&[0x00, 0x06, 0x00]).err(), Some(ReadBlockError::InvalidContentType(6)));
    assert_eq!(
        read_block(&[0x00, 0x05, 0x00, 0xff, 0xff, 0xff, 0xff, 0x0f, 0x00]).err(),
        Some(ReadBlockError::InvalidDataLength(-1))
    );
    // four data bytes are announced, two are there
    assert_eq!(
        read_block(&[0x00, 0x05, 0x00, 0x04, 0x04, 0xaa, 0xbb]).err(),
        Some(ReadBlockError::UnexpectedEof)
    );
    // the checksum is cut short
    assert_eq!(
        read_block(&[0x00, 0x05, 0x00, 0x01, 0x01, 0xaa, 0x00, 0x00]).err(),
        Some(ReadBlockError::UnexpectedEof)
    );
}
