//! Slices: a header and the blocks that one group of records encodes to.
use vstd::prelude::*;

use crate::block::{Block, BlockView};

verus! {

/// The reference sequence that the records of a slice are aligned to.
#[derive(Clone, Copy, Debug, PartialEq, Eq, Structural)]
pub enum ReferenceSequenceId {
    /// Every record is aligned to the reference sequence with this id.
    Specific(i32),
    /// No record is aligned.
    Unmapped,
    /// The records are aligned to more than one reference sequence.
    Multiple,
}

/// The contents of a slice header.
pub struct HeaderView {
    pub reference_sequence_id: ReferenceSequenceId,
    pub alignment_start: i32,
    pub alignment_span: i32,
    pub record_count: i32,
    pub record_counter: i64,
    pub block_count: i32,
    pub block_content_ids: Seq<i32>,
    pub embedded_reference_bases_block_content_id: Option<i32>,
    pub reference_md5: Seq<u8>,
    pub optional_tags: Seq<u8>,
}

/// The header of a slice.
#[derive(Clone, Debug)]
pub struct Header {
    reference_sequence_id: ReferenceSequenceId,
    alignment_start: i32,
    alignment_span: i32,
    record_count: i32,
    record_counter: i64,
    block_count: i32,
    block_content_ids: Vec<i32>,
    embedded_reference_bases_block_content_id: Option<i32>,
    reference_md5: [u8; 16],
    optional_tags: Vec<u8>,
}

impl View for Header {
    type V = HeaderView;

    closed spec fn view(&self) -> HeaderView {
        HeaderView {
            reference_sequence_id: self.reference_sequence_id,
            alignment_start: self.alignment_start,
            alignment_span: self.alignment_span,
            record_count: self.record_count,
            record_counter: self.record_counter,
            block_count: self.block_count,
            block_content_ids: self.block_content_ids@,
            embedded_reference_bases_block_content_id:
                self.embedded_reference_bases_block_content_id,
            reference_md5: self.reference_md5@,
            optional_tags: self.optional_tags@,
        }
    }
}

impl Header {
    pub fn new(
        reference_sequence_id: ReferenceSequenceId,
        alignment_start: i32,
        alignment_span: i32,
        record_count: i32,
        record_counter: i64,
        block_count: i32,
        block_content_ids: Vec<i32>,
        embedded_reference_bases_block_content_id: Option<i32>,
        reference_md5: [u8; 16],
        optional_tags: Vec<u8>,
    ) -> (r: Self)
        ensures
            r@ == (HeaderView {
                reference_sequence_id,
                alignment_start,
                alignment_span,
                record_count,
                record_counter,
                block_count,
                block_content_ids: block_content_ids@,
                embedded_reference_bases_block_content_id,
                reference_md5: reference_md5@,
                optional_tags: optional_tags@,
            }),
    {
        Header {
            reference_sequence_id,
            alignment_start,
            alignment_span,
            record_count,
            record_counter,
            block_count,
            block_content_ids,
            embedded_reference_bases_block_content_id,
            reference_md5,
            optional_tags,
        }
    }

    pub fn reference_sequence_id(&self) -> (r: ReferenceSequenceId)
        ensures
            r == self@.reference_sequence_id,
    {
        self.reference_sequence_id
    }

    /// The first position (1-based) that a record of the slice covers.
    pub fn alignment_start(&self) -> (r: i32)
        ensures
            r == self@.alignment_start,
    {
        self.alignment_start
    }

    /// The number of positions from the alignment start to the last position
    /// that a record covers.
    pub fn alignment_span(&self) -> (r: i32)
        ensures
            r == self@.alignment_span,
    {
        self.alignment_span
    }

    pub fn record_count(&self) -> (r: i32)
        ensures
            r == self@.record_count,
    {
        self.record_count
    }

    /// The record counter; the slice builder leaves it at zero.
    pub fn record_counter(&self) -> (r: i64)
        ensures
            r == self@.record_counter,
    {
        self.record_counter
    }

    pub fn block_count(&self) -> (r: i32)
        ensures
            r == self@.block_count,
    {
        self.block_count
    }

    /// The content ids of the slice's blocks: the core block first.
    pub fn block_content_ids(&self) -> (r: &[i32])
        ensures
            r@ == self@.block_content_ids,
    {
        self.block_content_ids.as_slice()
    }

    pub fn embedded_reference_bases_block_content_id(&self) -> (r: Option<i32>)
        ensures
            r == self@.embedded_reference_bases_block_content_id,
    {
        self.embedded_reference_bases_block_content_id
    }

    /// The MD5 digest of the reference bases that the slice covers, or
    /// sixteen zero bytes where the slice has no single reference.
    pub fn reference_md5(&self) -> (r: &[u8; 16])
        ensures
            r@ == self@.reference_md5,
    {
        &self.reference_md5
    }

    /// The optional tags; the slice builder leaves them empty.
    pub fn optional_tags(&self) -> (r: &[u8])
        ensures
            r@ == self@.optional_tags,
    {
        self.optional_tags.as_slice()
    }
}

/// The contents of a slice.
pub struct SliceView {
    pub header: HeaderView,
    pub core_data_block: BlockView,
    pub external_blocks: Seq<BlockView>,
}

pub open spec fn blocks_view(blocks: Seq<Block>) -> Seq<BlockView> {
    blocks.map_values(|b: Block| b@)
}

/// A header, one core data block, and the external data blocks.
#[derive(Clone, Debug)]
pub struct Slice {
    header: Header,
    core_data_block: Block,
    external_blocks: Vec<Block>,
}

impl View for Slice {
    type V = SliceView;

    closed spec fn view(&self) -> SliceView {
        SliceView {
            header: self.header@,
            core_data_block: self.core_data_block@,
            external_blocks: blocks_view(self.external_blocks@),
        }
    }
}

impl Slice {
    pub fn new(header: Header, core_data_block: Block, external_blocks: Vec<Block>) -> (r: Self)
        ensures
            r@ == (SliceView {
                header: header@,
                core_data_block: core_data_block@,
                external_blocks: blocks_view(external_blocks@),
            }),
    {
        Slice { header, core_data_block, external_blocks }
    }

    pub fn header(&self) -> (r: &Header)
        ensures
            r@ == self@.header,
    {
        &self.header
    }

    pub fn core_data_block(&self) -> (r: &Block)
        ensures
            r@ == self@.core_data_block,
    {
        &self.core_data_block
    }

    pub fn external_blocks(&self) -> (r: &[Block])
        ensures
            blocks_view(r@) == self@.external_blocks,
    {
        self.external_blocks.as_slice()
    }
}

} // verus!
