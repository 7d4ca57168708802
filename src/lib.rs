//! Block and slice encoding for a columnar, block-compressed alignment
//! container format, with the gzip and tabix index structures that go with
//! it.
//!
//! - [`block`]: blocks, their byte layout, and decompression by method.
//! - [`builder`]: the slice builder, which routes record fields to streams.
//! - [`record`]: records and the compression header's routing rules.
//! - [`slice`]: slice headers and slices.
//! - [`itf8`]: the variable-width integer encoding of the format.
//! - [`gzi`]: gzip index files.
//! - [`tabix`]: the per-reference part of a tabix index.
pub mod block;
pub mod builder;
pub mod gzi;
pub mod itf8;
pub mod record;
pub mod slice;
pub mod tabix;
