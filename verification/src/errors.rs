//! The error a compaction pass ends with.

use vstd::prelude::*;

verus! {

/// An error met during compaction.
///
/// `E` is whatever the store reports beyond the two cases that compaction
/// itself tells apart or raises.
#[derive(Debug, PartialEq, Eq)]
pub enum PagedbError<E> {
    /// The thing asked for does not exist.
    NotFound,
    /// A catalog row sits under a key that does not spell out its own metadata.
    MalformedSegmentKey,
    /// Any other failure of the store.
    Other(E),
}

} // verus!
