use md5::{Digest, Md5};

use cram_codec::block::{CompressionMethod, ContentType};
use cram_codec::builder::{AddRecordError, BuildError, Builder, CORE_DATA_BLOCK_CONTENT_ID};
use cram_codec::record::{CompressionHeader, Field, FieldKey, Record, Stream};
use cram_codec::slice::ReferenceSequenceId;

fn field(key: FieldKey, value: &[u8]) -> Field {
    Field { key, value: value.to_vec() }
}

fn reference_sequences() -> Vec<Vec<u8>> {
    (0..5u8)
        .map(|i| (0..200u32).map(|j| b"ACGT"[((j + i as u32) % 4) as usize]).collect())
        .collect()
}

#[test]
fn single_record_slice() {
    let references = reference_sequences();
    let header = CompressionHeader::new(vec![0], vec![]);
    let mut builder = Builder::new();
    let record = Record::new(
        Some(3),
        100,
        150,
        vec![field(FieldKey::DataSeries(0), &[1, 2]), field(FieldKey::DataSeries(3), &[9])],
    );
    assert!(builder.add_record(record).is_ok());

    let slice = builder.build(&references, &header).unwrap();
    let h = slice.header();
    assert_eq!(h.reference_sequence_id(), ReferenceSequenceId::Specific(3));
    assert_eq!(h.alignment_start(), 100);
    assert_eq!(h.alignment_span(), 51);
    assert_eq!(h.record_count(), 1);
    assert_eq!(h.record_counter(), 0);
    assert_eq!(h.embedded_reference_bases_block_content_id(), None);
    assert!(h.optional_tags().is_empty());

    let expected: [u8; 16] = Md5::digest(&references[3][99..150]).into();
    assert_eq!(h.reference_md5(), &expected);
    assert_ne!(h.reference_md5(), &[0; 16]);

    assert_eq!(h.block_content_ids()[0], CORE_DATA_BLOCK_CONTENT_ID);
    assert_eq!(h.block_content_ids(), &[0, 4]);
    assert_eq!(h.block_count(), 2);

    let core = slice.core_data_block();
    assert_eq!(core.compression_method(), CompressionMethod::Uncompressed);
    assert_eq!(core.content_type(), ContentType::CoreData);
    assert_eq!(core.content_id(), 0);
    assert_eq!(core.data(), &[1, 2]);
    assert_eq!(core.uncompressed_len(), 2);
    assert_eq!(core.crc32(), 0);

    let external = slice.external_blocks();
    assert_eq!(external.len(), 1);
    assert_eq!(external[0].content_type(), ContentType::ExternalData);
    assert_eq!(external[0].content_id(), 4);
    assert_eq!(external[0].data(), &[9]);
    assert_eq!(external[0].uncompressed_len(), 1);
}

#[test]
fn unmapped_records_have_zero_md5() {
    let references = reference_sequences();
    let header = CompressionHeader::new(vec![], vec![]);
    let mut builder = Builder::new();
    assert!(builder.add_record(Record::new(None, 0, 0, vec![])).is_ok());
    assert!(builder.add_record(Record::new(None, 7, 300, vec![])).is_ok());

    let slice = builder.build(&references, &header).unwrap();
    let h = slice.header();
    assert_eq!(h.reference_sequence_id(), ReferenceSequenceId::Unmapped);
    assert_eq!(h.reference_md5(), &[0; 16]);
    assert_eq!(h.record_count(), 2);
    assert_eq!(h.block_content_ids(), &[0]);
    assert_eq!(h.block_count(), 1);
    assert!(slice.external_blocks().is_empty());
    assert!(slice.core_data_block().data().is_empty());
}

#[test]
fn empty_tag_streams_are_dropped() {
    let references = reference_sequences();
    let header = CompressionHeader::new((0..28).collect(), vec![5_000, 6_000, 7_000]);
    let mut builder = Builder::new();
    let record = Record::new(
        Some(0),
        1,
        10,
        vec![field(FieldKey::Tag(6_000), b"NH"), field(FieldKey::DataSeries(1), &[3])],
    );
    assert!(builder.add_record(record).is_ok());
    let record = Record::new(Some(0), 5, 20, vec![field(FieldKey::Tag(6_000), b"i1")]);
    assert!(builder.add_record(record).is_ok());

    let slice = builder.build(&references, &header).unwrap();
    let h = slice.header();
    assert_eq!(h.block_content_ids(), &[0, 6_000]);
    assert_eq!(h.block_count(), 2);
    let external = slice.external_blocks();
    assert_eq!(external.len(), 1);
    assert_eq!(external[0].content_id(), 6_000);
    assert_eq!(external[0].data(), b"NHi1");
    assert_eq!(slice.core_data_block().data(), &[3]);
}

#[test]
fn span_covers_all_records() {
    let references = reference_sequences();
    let header = CompressionHeader::new(vec![], vec![]);
    let mut builder = Builder::new();
    for (start, end) in [(50, 60), (20, 30), (40, 120), (25, 26)] {
        assert!(builder.add_record(Record::new(Some(1), start, end, vec![])).is_ok());
    }
    assert_eq!(builder.len(), 4);

    let slice = builder.build(&references, &header).unwrap();
    assert_eq!(slice.header().alignment_start(), 20);
    assert_eq!(slice.header().alignment_span(), 120 - 20 + 1);
    let expected: [u8; 16] = Md5::digest(&references[1][19..120]).into();
    assert_eq!(slice.header().reference_md5(), &expected);
}

#[test]
fn streams_keep_record_order() {
    let references = reference_sequences();
    let header = CompressionHeader::new(vec![2], vec![]);
    let mut builder = Builder::new();
    for i in 0..3u8 {
        let fields = vec![
            field(FieldKey::DataSeries(2), &[i]),
            field(FieldKey::DataSeries(5), &[10 + i]),
            field(FieldKey::DataSeries(2), &[20 + i]),
        ];
        assert!(builder.add_record(Record::new(Some(2), 1, 5, fields)).is_ok());
    }
    let slice = builder.build(&references, &header).unwrap();
    assert_eq!(slice.core_data_block().data(), &[0, 20, 1, 21, 2, 22]);
    assert_eq!(slice.external_blocks()[0].content_id(), 6);
    assert_eq!(slice.external_blocks()[0].data(), &[10, 11, 12]);
}

#[test]
fn mismatched_record_is_handed_back() {
    let mut builder = Builder::new();
    assert!(builder.is_empty());
    let added = builder.add_record(Record::new(Some(2), 10, 20, vec![])).unwrap();
    assert_eq!(added.reference_sequence_id(), Some(2));
    assert!(!builder.is_empty());

    let rejected = Record::new(Some(3), 11, 12, vec![field(FieldKey::Tag(1), &[4])]);
    match builder.add_record(rejected) {
        Err(AddRecordError::ReferenceSequenceIdMismatch(record)) => {
            assert_eq!(record.reference_sequence_id(), Some(3));
            assert_eq!(record.alignment_start(), 11);
            assert_eq!(record.alignment_end(), 12);
            assert_eq!(record.fields().len(), 1);
            assert_eq!(record.fields()[0].value, vec![4]);
        }
        Ok(_) => panic!("record with another reference was accepted"),
    }
    assert_eq!(builder.len(), 1);

    assert!(matches!(
        builder.add_record(Record::new(None, 11, 12, vec![])),
        Err(AddRecordError::ReferenceSequenceIdMismatch(_))
    ));
    assert_eq!(builder.len(), 1);
}

#[test]
fn unmapped_builder_rejects_mapped_record() {
    let mut builder = Builder::new();
    assert!(builder.add_record(Record::new(None, 0, 0, vec![])).is_ok());
    assert!(matches!(
        builder.add_record(Record::new(Some(0), 1, 2, vec![])),
        Err(AddRecordError::ReferenceSequenceIdMismatch(_))
    ));
    assert!(builder.add_record(Record::new(None, 3, 4, vec![])).is_ok());
    assert_eq!(builder.len(), 2);
}

#[test]
fn empty_builder_fails() {
    let header = CompressionHeader::new(vec![], vec![1]);
    let result = Builder::new().build(&reference_sequences(), &header);
    assert!(matches!(result, Err(BuildError::NoRecords)));
}

#[test]
fn missing_reference_sequence_fails() {
    let header = CompressionHeader::new(vec![], vec![]);
    let mut builder = Builder::new();
    assert!(builder.add_record(Record::new(Some(5), 1, 2, vec![])).is_ok());
    let result = builder.build(&reference_sequences(), &header);
    assert!(matches!(result, Err(BuildError::MissingReferenceSequence)));

    let mut builder = Builder::new();
    assert!(builder.add_record(Record::new(Some(-3), 1, 2, vec![])).is_ok());
    let result = builder.build(&reference_sequences(), &header);
    assert!(matches!(result, Err(BuildError::MissingReferenceSequence)));
}

#[test]
fn span_outside_reference_fails() {
    let header = CompressionHeader::new(vec![], vec![]);
    let mut builder = Builder::new();
    assert!(builder.add_record(Record::new(Some(0), 150, 201, vec![])).is_ok());
    let result = builder.build(&reference_sequences(), &header);
    assert!(matches!(result, Err(BuildError::ReferenceRangeOutOfBounds)));

    let mut builder = Builder::new();
    assert!(builder.add_record(Record::new(Some(0), 0, 10, vec![])).is_ok());
    let result = builder.build(&reference_sequences(), &header);
    assert!(matches!(result, Err(BuildError::ReferenceRangeOutOfBounds)));
}

#[test]
fn undeclared_tag_fails() {
    let header = CompressionHeader::new(vec![], vec![7]);
    let mut builder = Builder::new();
    let record = Record::new(None, 0, 0, vec![field(FieldKey::Tag(8), &[1])]);
    assert!(builder.add_record(record).is_ok());
    let result = builder.build(&reference_sequences(), &header);
    assert!(matches!(result, Err(BuildError::UnroutableField)));

    let mut builder = Builder::new();
    let record = Record::new(None, 0, 0, vec![field(FieldKey::DataSeries(28), &[1])]);
    assert!(builder.add_record(record).is_ok());
    let result = builder.build(&reference_sequences(), &header);
    assert!(matches!(result, Err(BuildError::UnroutableField)));
}

#[test]
fn stream_of_routes_fields() {
    let header = CompressionHeader::new(vec![0, 4], vec![40, 2]);
    assert_eq!(header.stream_of(FieldKey::DataSeries(0)), Some(Stream::Core));
    assert_eq!(header.stream_of(FieldKey::DataSeries(1)), Some(Stream::External(2)));
    assert_eq!(header.stream_of(FieldKey::DataSeries(27)), Some(Stream::External(28)));
    assert_eq!(header.stream_of(FieldKey::DataSeries(28)), None);
    assert_eq!(header.stream_of(FieldKey::Tag(40)), Some(Stream::External(40)));
    assert_eq!(header.stream_of(FieldKey::Tag(41)), None);
    assert_eq!(header.core_data_series(), &[0, 4]);
    assert_eq!(header.tag_ids(), &[40, 2]);
}

#[test]
fn tag_stream_sharing_a_data_series_id() {
    let header = CompressionHeader::new(vec![], vec![2]);
    let mut builder = Builder::new();
    let fields = vec![field(FieldKey::DataSeries(1), &[1]), field(FieldKey::Tag(2), &[2])];
    assert!(builder.add_record(Record::new(None, 0, 0, fields)).is_ok());
    let slice = builder.build(&reference_sequences(), &header).unwrap();
    assert_eq!(slice.header().block_content_ids(), &[0, 2]);
    assert_eq!(slice.external_blocks()[0].data(), &[1, 2]);
}
