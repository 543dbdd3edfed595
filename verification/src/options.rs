//! Settings of the store that steer compaction.

use vstd::prelude::*;

verus! {

/// What compaction takes from the store's format and from its options.
#[derive(Debug, Clone, Copy)]
pub struct CompactOptions {
    /// The byte that starts the key of every segment row in the catalog.
    pub segment_row_kind: u8,
    /// How many rows a batch of segment rows holds unless the catalog ends
    /// first.
    pub segment_row_batch: usize,
    /// The most bytes that a segment reader may map into memory.
    pub mmap_view_scratch_bytes: usize,
}

} // verus!
