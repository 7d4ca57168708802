//! The slice builder: gathers records that share a reference and encodes them
//! into a slice.
use vstd::prelude::*;

use crate::block::{Block, BlockView, CompressionMethod, ContentType};
use crate::record::{
    contains_i32, field_stream, fields_view, valid_span, CompressionHeader, CompressionHeaderView,
    FieldKey, Record, RecordView, Stream, DATA_SERIES_LEN,
};
use crate::slice::{blocks_view, Header, HeaderView, ReferenceSequenceId, Slice, SliceView};

verus! {

/// The content id of the core data block.
pub const CORE_DATA_BLOCK_CONTENT_ID: i32 = 0;

/// Why a record was not added to a builder.
#[derive(Debug)]
pub enum AddRecordError {
    /// The record's reference differs from the one that the builder's records
    /// share; the record is handed back.
    ReferenceSequenceIdMismatch(Record),
}

/// Why a slice could not be built.
#[derive(Clone, Copy, Debug, PartialEq, Eq, Structural)]
pub enum BuildError {
    /// The builder holds no record.
    NoRecords,
    /// A record has a field for which the compression header has no stream.
    UnroutableField,
    /// The slice's reference sequence is not among those given.
    MissingReferenceSequence,
    /// The slice's span reaches outside its reference sequence.
    ReferenceRangeOutOfBounds,
}

/// The reference that a record is aligned to.
pub open spec fn record_identity(r: RecordView) -> ReferenceSequenceId {
    match r.reference_sequence_id {
        Option::Some(id) => ReferenceSequenceId::Specific(id),
        Option::None => ReferenceSequenceId::Unmapped,
    }
}

/// The contents of a builder: its records in the order they were added, and
/// the reference that they share, fixed by the first.
pub struct BuilderView {
    pub records: Seq<RecordView>,
    pub reference_sequence_id: Option<ReferenceSequenceId>,
}

/// Whether a builder in state `b` accepts a record `r`.
pub open spec fn accepts(b: BuilderView, r: RecordView) -> bool {
    match b.reference_sequence_id {
        Option::None => true,
        Option::Some(id) => id == record_identity(r),
    }
}

/// The state of a builder in state `b` after it accepted `r`.
pub open spec fn with_record(b: BuilderView, r: RecordView) -> BuilderView {
    BuilderView {
        records: b.records.push(r),
        reference_sequence_id: Option::Some(record_identity(r)),
    }
}

pub open spec fn records_view(records: Seq<Record>) -> Seq<RecordView> {
    records.map_values(|r: Record| r@)
}

/// The bytes that `fields` write to stream `s`, in order.
pub open spec fn fields_stream(
    fields: Seq<(FieldKey, Seq<u8>)>,
    h: CompressionHeaderView,
    s: Stream,
) -> Seq<u8>
    decreases fields.len(),
{
    if fields.len() == 0 {
        Seq::empty()
    } else {
        let last = fields.last();
        fields_stream(fields.drop_last(), h, s) + if field_stream(last.0, h) == Option::Some(s) {
            last.1
        } else {
            Seq::empty()
        }
    }
}

/// The bytes that `records` write to stream `s`, record after record.
pub open spec fn records_stream(
    records: Seq<RecordView>,
    h: CompressionHeaderView,
    s: Stream,
) -> Seq<u8>
    decreases records.len(),
{
    if records.len() == 0 {
        Seq::empty()
    } else {
        records_stream(records.drop_last(), h, s) + fields_stream(records.last().fields, h, s)
    }
}

/// Whether the compression header has a stream for every field of `records`.
pub open spec fn routable(records: Seq<RecordView>, h: CompressionHeaderView) -> bool {
    forall|i: int, j: int|
        0 <= i < records.len() && 0 <= j < records[i].fields.len() ==> (#[trigger] field_stream(
            records[i].fields[j].0,
            h,
        )) is Some
}

/// The smallest alignment start of `records`, or `i32::MAX` for none.
pub open spec fn min_start(records: Seq<RecordView>) -> i32
    decreases records.len(),
{
    if records.len() == 0 {
        i32::MAX
    } else {
        let m = min_start(records.drop_last());
        if records.last().alignment_start < m {
            records.last().alignment_start
        } else {
            m
        }
    }
}

/// The largest alignment end of `records`, and at least 1.
pub open spec fn max_end(records: Seq<RecordView>) -> i32
    decreases records.len(),
{
    if records.len() == 0 {
        1
    } else {
        let m = max_end(records.drop_last());
        if records.last().alignment_end > m {
            records.last().alignment_end
        } else {
            m
        }
    }
}

/// The content ids of the external streams: one for each data series, then
/// each declared tag stream id that is not there yet, in order.
pub open spec fn data_series_ids() -> Seq<i32> {
    Seq::new(DATA_SERIES_LEN as nat, |i: int| (i + 1) as i32)
}

pub open spec fn add_tag_ids(ids: Seq<i32>, tags: Seq<i32>) -> Seq<i32>
    decreases tags.len(),
{
    if tags.len() == 0 {
        ids
    } else {
        let p = add_tag_ids(ids, tags.drop_last());
        if p.contains(tags.last()) {
            p
        } else {
            p.push(tags.last())
        }
    }
}

pub open spec fn sink_ids(h: CompressionHeaderView) -> Seq<i32> {
    add_tag_ids(data_series_ids(), h.tag_ids)
}

/// Those of `ids` whose external stream receives at least one byte.
pub open spec fn nonempty_ids(
    ids: Seq<i32>,
    records: Seq<RecordView>,
    h: CompressionHeaderView,
) -> Seq<i32>
    decreases ids.len(),
{
    if ids.len() == 0 {
        Seq::empty()
    } else {
        let p = nonempty_ids(ids.drop_last(), records, h);
        if records_stream(records, h, Stream::External(ids.last())).len() > 0 {
            p.push(ids.last())
        } else {
            p
        }
    }
}

/// An uncompressed block with a zero checksum.
pub open spec fn raw_block(content_type: ContentType, content_id: i32, data: Seq<u8>) -> BlockView {
    BlockView {
        compression_method: CompressionMethod::Uncompressed,
        content_type,
        content_id,
        uncompressed_len: data.len() as i32,
        data,
        crc32: 0,
    }
}

pub open spec fn external_block(
    id: i32,
    records: Seq<RecordView>,
    h: CompressionHeaderView,
) -> BlockView {
    raw_block(ContentType::ExternalData, id, records_stream(records, h, Stream::External(id)))
}

pub open spec fn zero_md5() -> Seq<u8> {
    Seq::new(16, |i: int| 0u8)
}

/// The digest of a byte string under MD5.
pub uninterp spec fn md5_of(data: Seq<u8>) -> Seq<u8>;

/// The reference bases that positions `start..=end` (1-based) of `sequence`
/// hold.
pub open spec fn covered_bases(sequence: Seq<u8>, start: i32, end: i32) -> Seq<u8> {
    sequence.subrange(start - 1, end as int)
}

/// The slice that `b` builds, or the error, given the reference sequences and
/// the compression header.
pub open spec fn build_outcome(
    b: BuilderView,
    references: Seq<Seq<u8>>,
    h: CompressionHeaderView,
) -> Result<SliceView, BuildError> {
    let records = b.records;
    let start = min_start(records);
    let end = max_end(records);
    let reference_sequence_id = match b.reference_sequence_id {
        Option::Some(id) => id,
        Option::None => ReferenceSequenceId::Unmapped,
    };
    let ids = nonempty_ids(sink_ids(h), records, h);
    if records.len() == 0 {
        Err(BuildError::NoRecords)
    } else if !routable(records, h) {
        Err(BuildError::UnroutableField)
    } else {
        let md5: Result<Seq<u8>, BuildError> = match reference_sequence_id {
            ReferenceSequenceId::Specific(id) => if id < 0 || id >= references.len() {
                Err(BuildError::MissingReferenceSequence)
            } else if start < 1 || end > references[id as int].len() {
                Err(BuildError::ReferenceRangeOutOfBounds)
            } else {
                Ok(md5_of(covered_bases(references[id as int], start, end)))
            },
            _ => Ok(zero_md5()),
        };
        match md5 {
            Err(e) => Err(e),
            Ok(md5) => Ok(
                SliceView {
                    header: HeaderView {
                        reference_sequence_id,
                        alignment_start: start,
                        alignment_span: (end - start + 1) as i32,
                        record_count: records.len() as i32,
                        record_counter: 0,
                        block_count: (ids.len() + 1) as i32,
                        block_content_ids: seq![CORE_DATA_BLOCK_CONTENT_ID] + ids,
                        embedded_reference_bases_block_content_id: Option::None,
                        reference_md5: md5,
                        optional_tags: Seq::empty(),
                    },
                    core_data_block: raw_block(
                        ContentType::CoreData,
                        CORE_DATA_BLOCK_CONTENT_ID,
                        records_stream(records, h, Stream::Core),
                    ),
                    external_blocks: ids.map_values(|id: i32| external_block(id, records, h)),
                },
            ),
        }
    }
}

/// Relies on `md5::Md5` (the md-5 crate) through `Digest::digest`: sixteen
/// bytes that depend on the input bytes alone.
#[verifier::external_body]
fn md5_digest(data: &[u8]) -> (r: [u8; 16])
    ensures
        r@ == md5_of(data@),
{
    <md5::Md5 as md5::Digest>::digest(data).into()
}

/// Gathers the records of one slice.
#[derive(Debug)]
pub struct Builder {
    records: Vec<Record>,
    reference_sequence_id: Option<ReferenceSequenceId>,
}

impl View for Builder {
    type V = BuilderView;

    closed spec fn view(&self) -> BuilderView {
        BuilderView {
            records: records_view(self.records@),
            reference_sequence_id: self.reference_sequence_id,
        }
    }
}

/// Whether every record of `b` is aligned to the builder's reference and has
/// valid bounds, and the reference is fixed exactly when there are records.
pub open spec fn builder_wf(b: BuilderView) -> bool {
    &&& (b.records.len() == 0 <==> b.reference_sequence_id is None)
    &&& forall|i: int|
        0 <= i < b.records.len() ==> b.reference_sequence_id == Option::Some(
            record_identity(#[trigger] b.records[i]),
        ) && valid_span(b.records[i].alignment_start, b.records[i].alignment_end)
}

impl Default for Builder {
    fn default() -> (r: Self)
        ensures
            builder_wf(r@),
            r@.records == Seq::<RecordView>::empty(),
            r@.reference_sequence_id is None,
    {
        Builder::new()
    }
}

impl Builder {
    /// Creates an empty builder.
    pub fn new() -> (r: Self)
        ensures
            builder_wf(r@),
            r@.records == Seq::<RecordView>::empty(),
            r@.reference_sequence_id is None,
    {
        let b = Builder { records: Vec::new(), reference_sequence_id: None };
        assert(b@.records =~= Seq::<RecordView>::empty());
        b
    }

    pub fn is_empty(&self) -> (r: bool)
        ensures
            r == (self@.records.len() == 0),
    {
        self.records.len() == 0
    }

    /// The records in the order they were added.
    pub fn records(&self) -> (r: &[Record])
        ensures
            records_view(r@) == self@.records,
    {
        self.records.as_slice()
    }

    /// The number of records in the builder.
    pub fn len(&self) -> (r: usize)
        ensures
            r == self@.records.len(),
    {
        self.records.len()
    }

    /// Adds `record` if it is aligned to the same reference as the records
    /// already here (any record, where there are none), and returns it.
    /// Otherwise the builder is left as it was and the record is handed back
    /// in the error.
    pub fn add_record(&mut self, record: Record) -> (r: Result<&Record, AddRecordError>)
        requires
            builder_wf(old(self)@),
        ensures
            builder_wf(final(self)@),
            accepts(old(self)@, record@) ==> (r matches Ok(added) && added@ == record@
                && final(self)@ == with_record(old(self)@, record@)),
            !accepts(old(self)@, record@) ==> (r matches Err(
                AddRecordError::ReferenceSequenceIdMismatch(rejected),
            ) && rejected@ == record@ && final(self)@ == old(self)@),
    {
        // The record's bounds are kept by its invariant; the accessor states
        // them, and the builder keeps them for `build`.
        let _ = record.alignment_start();
        let identity = match record.reference_sequence_id() {
            Some(id) => ReferenceSequenceId::Specific(id),
            None => ReferenceSequenceId::Unmapped,
        };
        let accepted = match self.reference_sequence_id {
            None => true,
            Some(id) => id == identity,
        };
        if !accepted {
            return Err(AddRecordError::ReferenceSequenceIdMismatch(record));
        }
        self.reference_sequence_id = Some(identity);
        self.records.push(record);
        let ghost new_records = records_view(self.records@);
        assert(new_records =~= old(self)@.records.push(record@));
        let last = self.records.len() - 1;
        Ok(&self.records[last])
    }

    /// Encodes the records into a slice: the fields go to the core stream and
    /// to external streams as `compression_header` routes them; each external
    /// stream that received bytes becomes a block; the header gives the span
    /// that the records cover and the MD5 digest of the reference bases there.
    pub fn build(self, reference_sequences: &[Vec<u8>], compression_header: &CompressionHeader) -> (r:
        Result<Slice, BuildError>)
        requires
            builder_wf(self@),
            self@.records.len() <= i32::MAX,
            compression_header@.tag_ids.len() + DATA_SERIES_LEN < i32::MAX,
            forall|s: Stream| #[trigger]
                records_stream(self@.records, compression_header@, s).len() <= i32::MAX,
        ensures
            self@.records.len() == 0 ==> r == Err::<Slice, BuildError>(BuildError::NoRecords),
            match r {
                Ok(slice) => build_outcome(
                    self@,
                    reference_sequence_views(reference_sequences@),
                    compression_header@,
                ) == Ok::<SliceView, BuildError>(slice@),
                Err(e) => build_outcome(
                    self@,
                    reference_sequence_views(reference_sequences@),
                    compression_header@,
                ) == Err::<SliceView, BuildError>(e),
            },
    {
        let ghost b = self@;
        let ghost h = compression_header@;
        let ghost records = b.records;
        let n = self.records.len();
        if n == 0 {
            return Err(BuildError::NoRecords);
        }
        let reference_sequence_id = match self.reference_sequence_id {
            Some(id) => id,
            None => ReferenceSequenceId::Unmapped,
        };

        let ids = external_stream_ids(compression_header);
        let mut sinks: Vec<Vec<u8>> = Vec::new();
        while sinks.len() < ids.len()
            invariant
                sinks@.len() <= ids@.len(),
                forall|k: int| 0 <= k < sinks@.len() ==> (#[trigger] sinks@[k])@ == Seq::<u8>::empty(),
            decreases ids@.len() - sinks@.len(),
        {
            sinks.push(Vec::new());
        }
        let mut core: Vec<u8> = Vec::new();
        let mut start: i32 = i32::MAX;
        let mut end: i32 = 1;
        let mut i: usize = 0;
        proof {
            assert(records.subrange(0, 0) =~= Seq::<RecordView>::empty());
        }
        while i < n
            invariant
                b == self@,
                h == compression_header@,
                records == b.records,
                builder_wf(b),
                n == records.len(),
                i <= n,
                ids@ == sink_ids(h),
                ids@.no_duplicates(),
                sinks@.len() == ids@.len(),
                core@ == records_stream(records.subrange(0, i as int), h, Stream::Core),
                forall|k: int|
                    0 <= k < sinks@.len() ==> (#[trigger] sinks@[k])@ == records_stream(
                        records.subrange(0, i as int),
                        h,
                        Stream::External(ids@[k]),
                    ),
                routable(records.subrange(0, i as int), h),
                start == min_start(records.subrange(0, i as int)),
                end == max_end(records.subrange(0, i as int)),
                0 <= start,
                1 <= end < i32::MAX,
                i > 0 ==> start <= end,
            decreases n - i,
        {
            let record = &self.records[i];
            let record_start = record.alignment_start();
            let record_end = record.alignment_end();
            let ghost prefix = records.subrange(0, i as int);
            let ghost next = records.subrange(0, i as int + 1);
            proof {
                assert(next.drop_last() =~= prefix);
                assert(next.last() == record@);
            }
            if record_start < start {
                start = record_start;
            }
            if record_end > end {
                end = record_end;
            }
            let fields = record.fields();
            let ghost fs = record@.fields;
            proof {
                assert(records[i as int] == record@);
            }
            let mut j: usize = 0;
            proof {
                assert(fs.subrange(0, 0) =~= Seq::<(FieldKey, Seq<u8>)>::empty());
            }
            while j < fields.len()
                invariant
                    h == compression_header@,
                    b == self@,
                    records == b.records,
                    n == records.len(),
                    i < n,
                    fs == records[i as int].fields,
                    fs == fields_view(fields@),
                    j <= fs.len(),
                    ids@ == sink_ids(h),
                    ids@.no_duplicates(),
                    sinks@.len() == ids@.len(),
                    core@ == records_stream(prefix, h, Stream::Core) + fields_stream(
                        fs.subrange(0, j as int),
                        h,
                        Stream::Core,
                    ),
                    forall|k: int|
                        0 <= k < sinks@.len() ==> (#[trigger] sinks@[k])@ == records_stream(
                            prefix,
                            h,
                            Stream::External(ids@[k]),
                        ) + fields_stream(fs.subrange(0, j as int), h, Stream::External(ids@[k])),
                    forall|m: int|
                        0 <= m < j ==> (#[trigger] field_stream(fs[m].0, h)) is Some,
                decreases fs.len() - j,
            {
                let field = &fields[j];
                let ghost fprefix = fs.subrange(0, j as int);
                let ghost fnext = fs.subrange(0, j as int + 1);
                proof {
                    assert(fnext.drop_last() =~= fprefix);
                    assert(fnext.last() == fs[j as int]);
                    assert(fs[j as int] == (field.key, field.value@));
                }
                match compression_header.stream_of(field.key) {
                    None => {
                        proof {
                            assert(field_stream(records[i as int].fields[j as int].0, h) is None);
                            assert(!routable(records, h));
                        }
                        return Err(BuildError::UnroutableField);
                    },
                    Some(Stream::Core) => {
                        append_bytes(&mut core, field.value.as_slice());
                        proof {
                            assert forall|k: int| 0 <= k < sinks@.len() implies (#[trigger] sinks@[k])@
                                == records_stream(prefix, h, Stream::External(ids@[k]))
                                + fields_stream(fnext, h, Stream::External(ids@[k])) by {
                                assert(fields_stream(fnext, h, Stream::External(ids@[k]))
                                    =~= fields_stream(fprefix, h, Stream::External(ids@[k])));
                            }
                            assert(core@ =~= records_stream(prefix, h, Stream::Core)
                                + fields_stream(fnext, h, Stream::Core));
                        }
                    },
                    Some(Stream::External(id)) => {
                        proof {
                            lemma_sink_ids_contain(h, field.key);
                        }
                        let k = position_of(&ids, id);
                        append_bytes(&mut sinks[k], field.value.as_slice());
                        proof {
                            assert forall|k2: int| 0 <= k2 < sinks@.len() implies (#[trigger] sinks@[k2])@
                                == records_stream(prefix, h, Stream::External(ids@[k2]))
                                + fields_stream(fnext, h, Stream::External(ids@[k2])) by {
                                if k2 != k {
                                    assert(ids@[k2] != ids@[k as int]);
                                    assert(fields_stream(fnext, h, Stream::External(ids@[k2]))
                                        =~= fields_stream(fprefix, h, Stream::External(ids@[k2])));
                                } else {
                                    assert(fields_stream(fnext, h, Stream::External(ids@[k2]))
                                        =~= fields_stream(fprefix, h, Stream::External(ids@[k2]))
                                        + field.value@);
                                }
                            }
                            assert(core@ =~= records_stream(prefix, h, Stream::Core)
                                + fields_stream(fnext, h, Stream::Core));
                        }
                    },
                }
                j += 1;
            }
            proof {
                assert(fs.subrange(0, j as int) =~= fs);
                assert(record@.fields == records[i as int].fields);
                assert forall|ii: int, jj: int|
                    0 <= ii < next.len() && 0 <= jj < next[ii].fields.len() implies (
                    #[trigger] field_stream(next[ii].fields[jj].0, h)) is Some by {
                    if ii < i {
                        assert(next[ii] == prefix[ii]);
                    }
                }
            }
            i += 1;
        }
        proof {
            assert(records.subrange(0, n as int) =~= records);
        }

        let mut external_blocks: Vec<Block> = Vec::new();
        let mut block_content_ids: Vec<i32> = vec![CORE_DATA_BLOCK_CONTENT_ID];
        let mut k: usize = 0;
        proof {
            assert(ids@.subrange(0, 0) =~= Seq::<i32>::empty());
        }
        while k < ids.len()
            invariant
                sinks@.len() == ids@.len(),
                ids@.len() <= h.tag_ids.len() + DATA_SERIES_LEN,
                k <= ids@.len(),
                forall|k2: int|
                    k <= k2 < sinks@.len() ==> (#[trigger] sinks@[k2])@ == records_stream(
                        records,
                        h,
                        Stream::External(ids@[k2]),
                    ),
                forall|s: Stream| #[trigger] records_stream(records, h, s).len() <= i32::MAX,
                block_content_ids@ == seq![CORE_DATA_BLOCK_CONTENT_ID] + nonempty_ids(
                    ids@.subrange(0, k as int),
                    records,
                    h,
                ),
                blocks_view(external_blocks@) == nonempty_ids(
                    ids@.subrange(0, k as int),
                    records,
                    h,
                ).map_values(|id: i32| external_block(id, records, h)),
                external_blocks@.len() <= k,
            decreases ids@.len() - k,
        {
            let ghost before = nonempty_ids(ids@.subrange(0, k as int), records, h);
            let ghost prev_blocks = external_blocks@;
            proof {
                assert(ids@.subrange(0, k as int + 1).drop_last() =~= ids@.subrange(0, k as int));
            }
            let mut buf: Vec<u8> = Vec::new();
            std::mem::swap(&mut buf, &mut sinks[k]);
            if buf.len() > 0 {
                let id = ids[k];
                proof {
                    assert(buf@ == records_stream(records, h, Stream::External(id)));
                    assert(records_stream(records, h, Stream::External(id)).len() <= i32::MAX);
                }
                let len = buf.len() as i32;
                block_content_ids.push(id);
                external_blocks.push(
                    Block::new(
                        CompressionMethod::Uncompressed,
                        ContentType::ExternalData,
                        id,
                        len,
                        buf,
                        0,
                    ),
                );
                proof {
                    let after = before.push(id);
                    assert(external_blocks@.last()@ == external_block(id, records, h));
                    assert(external_blocks@ == prev_blocks.push(external_blocks@.last()));
                    assert(blocks_view(prev_blocks).len() == prev_blocks.len());
                    assert(before.map_values(|id: i32| external_block(id, records, h)).len()
                        == before.len());
                    assert forall|m: int| 0 <= m < after.len() implies #[trigger] blocks_view(
                        external_blocks@,
                    )[m] == external_block(after[m], records, h) by {
                        if m < before.len() {
                            assert(external_blocks@[m] == prev_blocks[m]);
                            assert(blocks_view(prev_blocks)[m] == external_block(
                                before[m],
                                records,
                                h,
                            ));
                        }
                    }
                    assert(blocks_view(external_blocks@) =~= after.map_values(
                        |id: i32| external_block(id, records, h),
                    ));
                    assert(block_content_ids@ =~= seq![CORE_DATA_BLOCK_CONTENT_ID] + after);
                }
            } else {
                proof {
                    assert(blocks_view(external_blocks@) =~= before.map_values(
                        |id: i32| external_block(id, records, h),
                    ));
                }
            }
            k += 1;
        }
        proof {
            assert(ids@.subrange(0, k as int) =~= ids@);
        }

        let core_len = core.len() as i32;
        let core_data_block = Block::new(
            CompressionMethod::Uncompressed,
            ContentType::CoreData,
            CORE_DATA_BLOCK_CONTENT_ID,
            core_len,
            core,
            0,
        );

        let reference_md5: [u8; 16] = match reference_sequence_id {
            ReferenceSequenceId::Specific(id) => {
                if id < 0 || id as usize >= reference_sequences.len() {
                    return Err(BuildError::MissingReferenceSequence);
                }
                let sequence = &reference_sequences[id as usize];
                if start < 1 || end as usize > sequence.len() {
                    return Err(BuildError::ReferenceRangeOutOfBounds);
                }
                let bases = vstd::slice::slice_subrange(
                    sequence.as_slice(),
                    (start - 1) as usize,
                    end as usize,
                );
                md5_digest(bases)
            },
            _ => {
                let zeros: [u8; 16] = [0, 0, 0, 0, 0, 0, 0, 0, 0, 0, 0, 0, 0, 0, 0, 0];
                assert(zeros@ =~= zero_md5());
                zeros
            },
        };

        let block_count = (external_blocks.len() + 1) as i32;
        let header = Header::new(
            reference_sequence_id,
            start,
            end - start + 1,
            n as i32,
            0,
            block_count,
            block_content_ids,
            None,
            reference_md5,
            Vec::new(),
        );
        let slice = Slice::new(header, core_data_block, external_blocks);
        proof {
            let expected = build_outcome(b, reference_sequence_views(reference_sequences@), h);
            assert(expected matches Ok(s) && s =~= slice@);
        }
        Ok(slice)
    }
}

pub open spec fn reference_sequence_views(references: Seq<Vec<u8>>) -> Seq<Seq<u8>> {
    references.map_values(|v: Vec<u8>| v@)
}

/// Appends `src` to `dst`.
fn append_bytes(dst: &mut Vec<u8>, src: &[u8])
    ensures
        final(dst)@ == old(dst)@ + src@,
{
    let ghost start = dst@;
    let mut i: usize = 0;
    while i < src.len()
        invariant
            i <= src@.len(),
            dst@ == start + src@.subrange(0, i as int),
        decreases src@.len() - i,
    {
        dst.push(src[i]);
        i += 1;
        assert(dst@ =~= start + src@.subrange(0, i as int));
    }
    assert(src@.subrange(0, i as int) =~= src@);
}

/// Returns the index of `x` in `ids`, which holds it once.
fn position_of(ids: &Vec<i32>, x: i32) -> (r: usize)
    requires
        ids@.contains(x),
    ensures
        r < ids@.len(),
        ids@[r as int] == x,
{
    let mut i: usize = 0;
    while i < ids.len()
        invariant
            i <= ids@.len(),
            ids@.contains(x),
            forall|j: int| 0 <= j < i ==> ids@[j] != x,
        decreases ids@.len() - i,
    {
        if ids[i] == x {
            return i;
        }
        i += 1;
    }
    proof {
        let j = choose|j: int| 0 <= j < ids@.len() && ids@[j] == x;
        assert(ids@[j] == x);
    }
    0
}

/// Returns the content ids of the external streams under `h`, in the order
/// the streams are created.
fn external_stream_ids(h: &CompressionHeader) -> (r: Vec<i32>)
    requires
        h@.tag_ids.len() + DATA_SERIES_LEN < i32::MAX,
    ensures
        r@ == sink_ids(h@),
        r@.no_duplicates(),
        r@.len() <= h@.tag_ids.len() + DATA_SERIES_LEN,
{
    let mut ids: Vec<i32> = Vec::new();
    let mut i: usize = 0;
    while i < DATA_SERIES_LEN
        invariant
            i <= DATA_SERIES_LEN,
            ids@ == data_series_ids().subrange(0, i as int),
        decreases DATA_SERIES_LEN - i,
    {
        ids.push((i + 1) as i32);
        i += 1;
        assert(ids@ =~= data_series_ids().subrange(0, i as int));
    }
    assert(ids@ =~= data_series_ids());
    proof {
        assert(ids@.no_duplicates());
    }
    let tags = h.tag_ids();
    let mut t: usize = 0;
    proof {
        assert(tags@.subrange(0, 0) =~= Seq::<i32>::empty());
    }
    while t < tags.len()
        invariant
            t <= tags@.len(),
            tags@ == h@.tag_ids,
            ids@ == add_tag_ids(data_series_ids(), tags@.subrange(0, t as int)),
            ids@.no_duplicates(),
            ids@.len() <= t + DATA_SERIES_LEN,
        decreases tags@.len() - t,
    {
        proof {
            assert(tags@.subrange(0, t as int + 1).drop_last() =~= tags@.subrange(0, t as int));
        }
        let tag = tags[t];
        if !contains_i32(ids.as_slice(), tag) {
            ids.push(tag);
        }
        t += 1;
    }
    assert(tags@.subrange(0, t as int) =~= tags@);
    ids
}

/// Whether every record of `records` lies within positions `1..=len` of a
/// reference sequence of length `len`.
pub open spec fn within_reference(records: Seq<RecordView>, len: nat) -> bool {
    forall|i: int|
        0 <= i < records.len() ==> 1 <= (#[trigger] records[i]).alignment_start
            && records[i].alignment_end <= len
}

/// Whether the reference that `b` fixed can be looked up in `references` and
/// holds every record.
pub open spec fn reference_available(b: BuilderView, references: Seq<Seq<u8>>) -> bool {
    match b.reference_sequence_id {
        Option::Some(ReferenceSequenceId::Specific(id)) => 0 <= id < references.len()
            && within_reference(b.records, references[id as int].len()),
        _ => true,
    }
}

/// A slice built from records that share a reference starts at the smallest
/// alignment start of the records, and its span reaches exactly the largest
/// alignment end: `span == max(end) - min(start) + 1`. This holds where some
/// record ends at position 1 or later (the running end starts at 1), every
/// field has a stream, and the reference can be read.
pub proof fn lemma_build_spans_records(
    b: BuilderView,
    references: Seq<Seq<u8>>,
    h: CompressionHeaderView,
)
    requires
        builder_wf(b),
        b.records.len() > 0,
        routable(b.records, h),
        reference_available(b, references),
        exists|i: int| 0 <= i < b.records.len() && (#[trigger] b.records[i]).alignment_end >= 1,
    ensures
        build_outcome(b, references, h) matches Ok(s) && {
            let start = s.header.alignment_start as int;
            let last = start + s.header.alignment_span - 1;
            &&& exists|i: int|
                0 <= i < b.records.len() && (#[trigger] b.records[i]).alignment_start == start
            &&& forall|i: int|
                0 <= i < b.records.len() ==> start <= (#[trigger] b.records[i]).alignment_start
            &&& exists|i: int|
                0 <= i < b.records.len() && (#[trigger] b.records[i]).alignment_end == last
            &&& forall|i: int|
                0 <= i < b.records.len() ==> (#[trigger] b.records[i]).alignment_end <= last
        },
{
    let records = b.records;
    lemma_min_start(records);
    lemma_max_end(records);
    lemma_bounds_valid(records);
    let start = min_start(records);
    let end = max_end(records);
    if let Option::Some(ReferenceSequenceId::Specific(id)) = b.reference_sequence_id {
        let w = choose|i: int| 0 <= i < records.len() && records[i].alignment_start == start;
        let v = choose|i: int| 0 <= i < records.len() && #[trigger] records[i].alignment_end >= 1;
        assert(1 <= records[w].alignment_start);
        if end != 1 {
            let u = choose|i: int| 0 <= i < records.len() && records[i].alignment_end == end;
            assert(records[u].alignment_end <= references[id as int].len());
        } else {
            assert(records[v].alignment_end <= references[id as int].len());
        }
    }
    if end == 1 {
        let v = choose|i: int| 0 <= i < records.len() && #[trigger] records[i].alignment_end >= 1;
        assert(records[v].alignment_end == 1);
    }
}

/// A slice whose records are all unmapped carries sixteen zero bytes as its
/// reference digest, whatever the alignment positions of the records.
pub proof fn lemma_unmapped_slice_has_zero_md5(
    b: BuilderView,
    references: Seq<Seq<u8>>,
    h: CompressionHeaderView,
)
    requires
        builder_wf(b),
        b.records.len() > 0,
        routable(b.records, h),
        forall|i: int|
            0 <= i < b.records.len() ==> (#[trigger] b.records[i]).reference_sequence_id is None,
    ensures
        build_outcome(b, references, h) matches Ok(s) && s.header.reference_md5 == Seq::new(
            16,
            |i: int| 0u8,
        ),
{
    assert(record_identity(b.records[0]) == ReferenceSequenceId::Unmapped);
}

/// In a built slice, the header's block content ids are the core block's id
/// followed by the ids of the external blocks in order, the block count is
/// their number, and every external block holds data.
pub proof fn lemma_manifest_matches_blocks(
    b: BuilderView,
    references: Seq<Seq<u8>>,
    h: CompressionHeaderView,
)
    requires
        build_outcome(b, references, h) is Ok,
        h.tag_ids.len() + DATA_SERIES_LEN < i32::MAX,
    ensures
        build_outcome(b, references, h) matches Ok(s) && {
            &&& s.header.block_content_ids == seq![s.core_data_block.content_id]
                + s.external_blocks.map_values(|blk: BlockView| blk.content_id)
            &&& s.core_data_block.content_id == CORE_DATA_BLOCK_CONTENT_ID
            &&& s.header.block_count == s.header.block_content_ids.len()
            &&& forall|i: int|
                0 <= i < s.external_blocks.len() ==> (#[trigger] s.external_blocks[i]).data.len()
                    > 0 && s.external_blocks[i].content_type == ContentType::ExternalData
        },
{
    let ids = nonempty_ids(sink_ids(h), b.records, h);
    lemma_nonempty_ids(sink_ids(h), b.records, h);
    lemma_add_tag_ids_len(data_series_ids(), h.tag_ids);
    let s = build_outcome(b, references, h)->Ok_0;
    assert(s.external_blocks.map_values(|blk: BlockView| blk.content_id) =~= ids);
    assert(s.header.block_content_ids == seq![CORE_DATA_BLOCK_CONTENT_ID] + ids);
    assert(s.header.block_count == s.header.block_content_ids.len());
    assert forall|i: int| 0 <= i < s.external_blocks.len() implies (
    #[trigger] s.external_blocks[i]).data.len() > 0 by {
        assert(s.external_blocks[i] == external_block(ids[i], b.records, h));
    }
}

/// The block content ids of a built slice are distinct, so each names one
/// block, where no tag stream takes the core block's id.
pub proof fn lemma_manifest_ids_distinct(
    b: BuilderView,
    references: Seq<Seq<u8>>,
    h: CompressionHeaderView,
)
    requires
        build_outcome(b, references, h) is Ok,
        !h.tag_ids.contains(CORE_DATA_BLOCK_CONTENT_ID),
    ensures
        build_outcome(b, references, h) matches Ok(s) && s.header.block_content_ids.no_duplicates(),
{
    let ds = data_series_ids();
    assert(ds.no_duplicates());
    lemma_add_tag_ids_distinct(ds, h.tag_ids);
    lemma_nonempty_ids_sub(sink_ids(h), b.records, h);
    let ids = nonempty_ids(sink_ids(h), b.records, h);
    let all = seq![CORE_DATA_BLOCK_CONTENT_ID] + ids;
    assert(!ids.contains(CORE_DATA_BLOCK_CONTENT_ID)) by {
        if ids.contains(CORE_DATA_BLOCK_CONTENT_ID) {
            assert(sink_ids(h).contains(CORE_DATA_BLOCK_CONTENT_ID));
            if ds.contains(CORE_DATA_BLOCK_CONTENT_ID) {
                let k = choose|k: int| 0 <= k < ds.len() && ds[k] == CORE_DATA_BLOCK_CONTENT_ID;
                assert(ds[k] == k + 1);
            }
        }
    }
    assert forall|i: int, j: int| 0 <= i < all.len() && 0 <= j < all.len() && i != j implies all[i]
        != all[j] by {
        if i == 0 {
            assert(ids[j - 1] == all[j]);
        } else if j == 0 {
            assert(ids[i - 1] == all[i]);
        } else {
            assert(all[i] == ids[i - 1] && all[j] == ids[j - 1]);
        }
    }
}

proof fn lemma_add_tag_ids_distinct(ids: Seq<i32>, tags: Seq<i32>)
    requires
        ids.no_duplicates(),
    ensures
        add_tag_ids(ids, tags).no_duplicates(),
        forall|x: i32| #[trigger]
            add_tag_ids(ids, tags).contains(x) ==> ids.contains(x) || tags.contains(x),
    decreases tags.len(),
{
    if tags.len() > 0 {
        let p = add_tag_ids(ids, tags.drop_last());
        lemma_add_tag_ids_distinct(ids, tags.drop_last());
        assert forall|x: i32| #[trigger]
            add_tag_ids(ids, tags).contains(x) implies ids.contains(x) || tags.contains(x) by {
            if p.contains(x) {
                if tags.drop_last().contains(x) {
                    let k = choose|k: int| 0 <= k < tags.drop_last().len() && tags.drop_last()[k]
                        == x;
                    assert(tags[k] == x);
                }
            } else {
                assert(x == tags.last());
                assert(tags[tags.len() - 1] == x);
            }
        }
    }
}

proof fn lemma_nonempty_ids_sub(ids: Seq<i32>, records: Seq<RecordView>, h: CompressionHeaderView)
    requires
        ids.no_duplicates(),
    ensures
        nonempty_ids(ids, records, h).no_duplicates(),
        forall|x: i32| #[trigger] nonempty_ids(ids, records, h).contains(x) ==> ids.contains(x),
    decreases ids.len(),
{
    if ids.len() > 0 {
        let rest = ids.drop_last();
        assert(rest.no_duplicates());
        lemma_nonempty_ids_sub(rest, records, h);
        let p = nonempty_ids(rest, records, h);
        assert(!rest.contains(ids.last()));
        assert(!p.contains(ids.last()));
        if records_stream(records, h, Stream::External(ids.last())).len() > 0 {
            let q = p.push(ids.last());
            assert forall|i: int, j: int| 0 <= i < q.len() && 0 <= j < q.len() && i != j implies q[i]
                != q[j] by {
                if i < p.len() && j < p.len() {
                    assert(q[i] == p[i] && q[j] == p[j]);
                } else if i < p.len() {
                    assert(q[i] == p[i]);
                } else {
                    assert(q[j] == p[j]);
                }
            }
        }
        assert forall|x: i32| #[trigger] nonempty_ids(ids, records, h).contains(x) implies ids.contains(
            x,
        ) by {
            if p.contains(x) {
                let k = choose|k: int| 0 <= k < rest.len() && rest[k] == x;
                assert(ids[k] == x);
            } else {
                assert(ids[ids.len() - 1] == x);
            }
        }
    }
}

proof fn lemma_add_tag_ids_len(ids: Seq<i32>, tags: Seq<i32>)
    ensures
        add_tag_ids(ids, tags).len() <= ids.len() + tags.len(),
    decreases tags.len(),
{
    if tags.len() > 0 {
        lemma_add_tag_ids_len(ids, tags.drop_last());
    }
}

/// Every id that `nonempty_ids` keeps has a stream with bytes, and there are
/// no more of them than ids.
proof fn lemma_nonempty_ids(ids: Seq<i32>, records: Seq<RecordView>, h: CompressionHeaderView)
    ensures
        nonempty_ids(ids, records, h).len() <= ids.len(),
        forall|i: int|
            0 <= i < nonempty_ids(ids, records, h).len() ==> records_stream(
                records,
                h,
                Stream::External(#[trigger] nonempty_ids(ids, records, h)[i]),
            ).len() > 0,
    decreases ids.len(),
{
    if ids.len() > 0 {
        lemma_nonempty_ids(ids.drop_last(), records, h);
    }
}

proof fn lemma_min_start(records: Seq<RecordView>)
    requires
        records.len() > 0,
    ensures
        exists|i: int|
            0 <= i < records.len() && (#[trigger] records[i]).alignment_start == min_start(records),
        forall|i: int|
            0 <= i < records.len() ==> min_start(records) <= (#[trigger] records[i]).alignment_start,
    decreases records.len(),
{
    let p = records.drop_last();
    if p.len() > 0 {
        lemma_min_start(p);
        let w = choose|i: int| 0 <= i < p.len() && (#[trigger] p[i]).alignment_start == min_start(p);
        assert(records[w] == p[w]);
        assert forall|i: int| 0 <= i < records.len() implies min_start(records) <= (
        #[trigger] records[i]).alignment_start by {
            if i < p.len() {
                assert(records[i] == p[i]);
            }
        }
    } else {
        assert(records[0] == records.last());
    }
    if records.last().alignment_start < min_start(p) {
        assert(records[records.len() - 1] == records.last());
    }
}

proof fn lemma_max_end(records: Seq<RecordView>)
    ensures
        max_end(records) >= 1,
        max_end(records) == 1 || exists|i: int|
            0 <= i < records.len() && (#[trigger] records[i]).alignment_end == max_end(records),
        forall|i: int|
            0 <= i < records.len() ==> (#[trigger] records[i]).alignment_end <= max_end(records),
    decreases records.len(),
{
    if records.len() > 0 {
        let p = records.drop_last();
        lemma_max_end(p);
        if max_end(p) != 1 && max_end(records) == max_end(p) {
            let w = choose|i: int| 0 <= i < p.len() && (#[trigger] p[i]).alignment_end == max_end(p);
            assert(records[w] == p[w]);
        }
        assert(records[records.len() - 1] == records.last());
        assert forall|i: int| 0 <= i < records.len() implies (
        #[trigger] records[i]).alignment_end <= max_end(records) by {
            if i < p.len() {
                assert(records[i] == p[i]);
            }
        }
    }
}

/// The running bounds stay within `i32` for records with valid bounds.
proof fn lemma_bounds_valid(records: Seq<RecordView>)
    requires
        records.len() > 0,
        forall|i: int|
            0 <= i < records.len() ==> valid_span(
                (#[trigger] records[i]).alignment_start,
                records[i].alignment_end,
            ),
    ensures
        0 <= min_start(records) <= max_end(records) < i32::MAX,
{
    lemma_min_start(records);
    lemma_max_end(records);
    let w = choose|i: int| 0 <= i < records.len() && (#[trigger] records[i]).alignment_start
        == min_start(records);
    assert(valid_span(records[w].alignment_start, records[w].alignment_end));
    if max_end(records) != 1 {
        let u = choose|i: int| 0 <= i < records.len() && (#[trigger] records[i]).alignment_end
            == max_end(records);
        assert(valid_span(records[u].alignment_start, records[u].alignment_end));
    }
}

/// Every stream that a field is routed to has a sink.
proof fn lemma_sink_ids_contain(h: CompressionHeaderView, key: FieldKey)
    requires
        field_stream(key, h) matches Option::Some(Stream::External(_)),
    ensures
        field_stream(key, h) matches Option::Some(Stream::External(id)) && sink_ids(h).contains(id),
{
    match key {
        FieldKey::DataSeries(i) => {
            lemma_add_tag_ids_keeps(data_series_ids(), h.tag_ids, i as int);
        },
        FieldKey::Tag(id) => {
            let j = choose|j: int| 0 <= j < h.tag_ids.len() && h.tag_ids[j] == id;
            lemma_add_tag_ids_has_tags(data_series_ids(), h.tag_ids, j);
        },
    }
}

proof fn lemma_add_tag_ids_keeps(ids: Seq<i32>, tags: Seq<i32>, k: int)
    requires
        0 <= k < ids.len(),
    ensures
        add_tag_ids(ids, tags).contains(ids[k]),
    decreases tags.len(),
{
    if tags.len() > 0 {
        lemma_add_tag_ids_keeps(ids, tags.drop_last(), k);
        let p = add_tag_ids(ids, tags.drop_last());
        if !p.contains(tags.last()) {
            let w = choose|w: int| 0 <= w < p.len() && p[w] == ids[k];
            assert(p.push(tags.last())[w] == ids[k]);
        }
    } else {
        assert(ids[k] == ids[k]);
    }
}

proof fn lemma_add_tag_ids_has_tags(ids: Seq<i32>, tags: Seq<i32>, j: int)
    requires
        0 <= j < tags.len(),
    ensures
        add_tag_ids(ids, tags).contains(tags[j]),
    decreases tags.len(),
{
    let p = add_tag_ids(ids, tags.drop_last());
    if j == tags.len() - 1 {
        if !p.contains(tags.last()) {
            assert(p.push(tags.last())[p.len() as int] == tags[j]);
        }
    } else {
        lemma_add_tag_ids_has_tags(ids, tags.drop_last(), j);
        assert(tags.drop_last()[j] == tags[j]);
        if !p.contains(tags.last()) {
            let w = choose|w: int| 0 <= w < p.len() && p[w] == tags[j];
            assert(p.push(tags.last())[w] == tags[j]);
        }
    }
}

} // verus!
