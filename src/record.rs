//! Alignment records as the slice builder consumes them, and the compression
//! header's routing of their fields to output streams.
use vstd::prelude::*;

verus! {

/// The number of fixed data series. Series `i` has its own external stream,
/// whose content id is `i + 1`.
pub const DATA_SERIES_LEN: usize = 28;

/// What a record field is: one of the fixed data series, or a tag whose
/// stream is keyed by the given id.
#[derive(Clone, Copy, Debug, PartialEq, Eq, Structural)]
pub enum FieldKey {
    DataSeries(usize),
    Tag(i32),
}

/// One encoded field of a record.
#[derive(Clone, Debug)]
pub struct Field {
    pub key: FieldKey,
    pub value: Vec<u8>,
}

/// An output stream of a slice.
#[derive(Clone, Copy, Debug, PartialEq, Eq, Structural)]
pub enum Stream {
    /// The single core stream.
    Core,
    /// The external stream with this block content id.
    External(i32),
}

/// The contents of a record.
pub struct RecordView {
    pub reference_sequence_id: Option<i32>,
    pub alignment_start: i32,
    pub alignment_end: i32,
    pub fields: Seq<(FieldKey, Seq<u8>)>,
}

/// An alignment record: its reference, its 1-based alignment span, and its
/// fields, already encoded.
#[derive(Debug)]
pub struct Record {
    reference_sequence_id: Option<i32>,
    alignment_start: i32,
    alignment_end: i32,
    fields: Vec<Field>,
}

/// The bounds every record keeps: positions are not negative, the end is not
/// before the start, and the span leaves room for one more position.
pub open spec fn valid_span(alignment_start: i32, alignment_end: i32) -> bool {
    0 <= alignment_start <= alignment_end < i32::MAX
}

pub open spec fn fields_view(fields: Seq<Field>) -> Seq<(FieldKey, Seq<u8>)> {
    fields.map_values(|f: Field| (f.key, f.value@))
}

impl View for Record {
    type V = RecordView;

    closed spec fn view(&self) -> RecordView {
        RecordView {
            reference_sequence_id: self.reference_sequence_id,
            alignment_start: self.alignment_start,
            alignment_end: self.alignment_end,
            fields: fields_view(self.fields@),
        }
    }
}

impl Record {
    #[verifier::type_invariant]
    spec fn inv(self) -> bool {
        valid_span(self.alignment_start, self.alignment_end)
    }

    /// Creates a record. `reference_sequence_id` is `None` for an unmapped
    /// record.
    pub fn new(
        reference_sequence_id: Option<i32>,
        alignment_start: i32,
        alignment_end: i32,
        fields: Vec<Field>,
    ) -> (r: Self)
        requires
            valid_span(alignment_start, alignment_end),
        ensures
            r@ == (RecordView {
                reference_sequence_id,
                alignment_start,
                alignment_end,
                fields: fields_view(fields@),
            }),
    {
        Record { reference_sequence_id, alignment_start, alignment_end, fields }
    }

    pub fn reference_sequence_id(&self) -> (r: Option<i32>)
        ensures
            r == self@.reference_sequence_id,
    {
        self.reference_sequence_id
    }

    pub fn alignment_start(&self) -> (r: i32)
        ensures
            r == self@.alignment_start,
            valid_span(self@.alignment_start, self@.alignment_end),
    {
        proof {
            use_type_invariant(self);
        }
        self.alignment_start
    }

    pub fn alignment_end(&self) -> (r: i32)
        ensures
            r == self@.alignment_end,
            valid_span(self@.alignment_start, self@.alignment_end),
    {
        proof {
            use_type_invariant(self);
        }
        self.alignment_end
    }

    pub fn fields(&self) -> (r: &[Field])
        ensures
            fields_view(r@) == self@.fields,
    {
        self.fields.as_slice()
    }
}

/// The view of a compression header: which data series go to the core
/// stream, and the declared tag stream ids, in order.
pub struct CompressionHeaderView {
    pub core_data_series: Seq<usize>,
    pub tag_ids: Seq<i32>,
}

/// The encoding rules of a container that the slice builder consults: which
/// data series are written to the core stream (the others go to their own
/// external streams), and which tag streams exist.
#[derive(Clone, Debug)]
pub struct CompressionHeader {
    core_data_series: Vec<usize>,
    tag_ids: Vec<i32>,
}

impl View for CompressionHeader {
    type V = CompressionHeaderView;

    closed spec fn view(&self) -> CompressionHeaderView {
        CompressionHeaderView { core_data_series: self.core_data_series@, tag_ids: self.tag_ids@ }
    }
}

impl CompressionHeader {
    pub fn new(core_data_series: Vec<usize>, tag_ids: Vec<i32>) -> (r: Self)
        ensures
            r@ == (CompressionHeaderView {
                core_data_series: core_data_series@,
                tag_ids: tag_ids@,
            }),
    {
        CompressionHeader { core_data_series, tag_ids }
    }

    /// The data series that are written to the core stream.
    pub fn core_data_series(&self) -> (r: &[usize])
        ensures
            r@ == self@.core_data_series,
    {
        self.core_data_series.as_slice()
    }

    /// The declared tag stream ids, in order.
    pub fn tag_ids(&self) -> (r: &[i32])
        ensures
            r@ == self@.tag_ids,
    {
        self.tag_ids.as_slice()
    }

    /// Returns the stream that a field with `key` is written to, or `None`
    /// where the header has no stream for it.
    pub fn stream_of(&self, key: FieldKey) -> (r: Option<Stream>)
        ensures
            r == field_stream(key, self@),
    {
        match key {
            FieldKey::DataSeries(i) => {
                if i >= DATA_SERIES_LEN {
                    None
                } else if contains_usize(self.core_data_series.as_slice(), i) {
                    Some(Stream::Core)
                } else {
                    Some(Stream::External(i as i32 + 1))
                }
            },
            FieldKey::Tag(id) => {
                if contains_i32(self.tag_ids.as_slice(), id) {
                    Some(Stream::External(id))
                } else {
                    None
                }
            },
        }
    }
}

/// The stream that a field with `key` goes to under header `h`.
pub open spec fn field_stream(key: FieldKey, h: CompressionHeaderView) -> Option<Stream> {
    match key {
        FieldKey::DataSeries(i) => if i >= DATA_SERIES_LEN {
            None
        } else if h.core_data_series.contains(i) {
            Some(Stream::Core)
        } else {
            Some(Stream::External((i + 1) as i32))
        },
        FieldKey::Tag(id) => if h.tag_ids.contains(id) {
            Some(Stream::External(id))
        } else {
            None
        },
    }
}

fn contains_usize(s: &[usize], x: usize) -> (r: bool)
    ensures
        r == s@.contains(x),
{
    let mut i: usize = 0;
    while i < s.len()
        invariant
            i <= s@.len(),
            forall|j: int| 0 <= j < i ==> s@[j] != x,
        decreases s@.len() - i,
    {
        if s[i] == x {
            return true;
        }
        i += 1;
    }
    false
}

pub(crate) fn contains_i32(s: &[i32], x: i32) -> (r: bool)
    ensures
        r == s@.contains(x),
{
    let mut i: usize = 0;
    while i < s.len()
        invariant
            i <= s@.len(),
            forall|j: int| 0 <= j < i ==> s@[j] != x,
        decreases s@.len() - i,
    {
        if s[i] == x {
            return true;
        }
        i += 1;
    }
    false
}

} // verus!
