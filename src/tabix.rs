//! The per-reference part of a tabix index: bins of chunks, and the linear
//! index of intervals.
use vstd::prelude::*;

verus! {

/// A position in a blocked gzip file: the compressed offset of a block in the
/// upper 48 bits, and the offset within the uncompressed block in the lower
/// 16.
#[derive(Clone, Copy, Debug, PartialEq, Eq, Structural)]
pub struct VirtualPosition(pub u64);

impl VirtualPosition {
    /// The offset of the block in the compressed file.
    pub fn compressed(&self) -> (r: u64)
        ensures
            r == self.0 / 0x1_0000,
    {
        self.0 / 0x1_0000
    }

    /// The offset within the uncompressed block.
    pub fn uncompressed(&self) -> (r: u16)
        ensures
            r == self.0 % 0x1_0000,
    {
        (self.0 % 0x1_0000) as u16
    }
}

/// A range of a blocked gzip file, from `start` up to `end`.
#[derive(Clone, Copy, Debug, PartialEq, Eq, Structural)]
pub struct Chunk {
    start: VirtualPosition,
    end: VirtualPosition,
}

impl Chunk {
    pub fn new(start: VirtualPosition, end: VirtualPosition) -> (r: Self)
        ensures
            r.spec_start() == start,
            r.spec_end() == end,
    {
        Chunk { start, end }
    }

    pub closed spec fn spec_start(&self) -> VirtualPosition {
        self.start
    }

    pub closed spec fn spec_end(&self) -> VirtualPosition {
        self.end
    }

    pub fn start(&self) -> (r: VirtualPosition)
        ensures
            r == self.spec_start(),
    {
        self.start
    }

    pub fn end(&self) -> (r: VirtualPosition)
        ensures
            r == self.spec_end(),
    {
        self.end
    }
}

/// A bin of the binning index: its number and its chunks.
#[derive(Clone, Debug)]
pub struct Bin {
    pub id: u32,
    pub chunks: Vec<Chunk>,
}

/// The index of one reference sequence.
#[derive(Clone, Debug)]
pub struct Reference {
    bins: Vec<Bin>,
    intervals: Vec<VirtualPosition>,
}

impl Reference {
    pub fn new(bins: Vec<Bin>, intervals: Vec<VirtualPosition>) -> (r: Self)
        ensures
            r.spec_bins() == bins@,
            r.spec_intervals() == intervals@,
    {
        Reference { bins, intervals }
    }

    pub closed spec fn spec_bins(&self) -> Seq<Bin> {
        self.bins@
    }

    pub closed spec fn spec_intervals(&self) -> Seq<VirtualPosition> {
        self.intervals@
    }

    pub fn bins(&self) -> (r: &[Bin])
        ensures
            r@ == self.spec_bins(),
    {
        self.bins.as_slice()
    }

    pub fn intervals(&self) -> (r: &[VirtualPosition])
        ensures
            r@ == self.spec_intervals(),
    {
        self.intervals.as_slice()
    }
}

} // verus!
