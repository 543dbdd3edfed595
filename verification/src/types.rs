//! Public types describing compaction budgets, per-step progress, and the
//! aggregate statistics of a full pass.

use vstd::prelude::*;

verus! {

/// Per-call budget for incremental compaction.
///
/// Both fields bound the work done in a single call. The call releases the
/// writer lock once either limit is reached or no more work remains.
#[non_exhaustive]
#[derive(Debug, Clone, Copy)]
pub struct CompactBudget {
    /// Maximum number of pages that may be relocated (written to new
    /// low-address slots) in a single call.
    pub max_pages_relocated: u64,
    /// Wall-clock time limit in milliseconds. The call checks this after each
    /// batch commit and returns early if the budget is exhausted.
    pub max_duration_ms: u64,
}

impl Default for CompactBudget {
    fn default() -> (budget: Self)
        ensures
            budget.max_pages_relocated == 256,
            budget.max_duration_ms == 500,
    {
        Self { max_pages_relocated: 256, max_duration_ms: 500 }
    }
}

impl CompactBudget {
    /// Construct a `CompactBudget` with explicit limits.
    #[must_use]
    pub fn new(max_pages_relocated: u64, max_duration_ms: u64) -> (budget: Self)
        ensures
            budget.max_pages_relocated == max_pages_relocated,
            budget.max_duration_ms == max_duration_ms,
    {
        Self { max_pages_relocated, max_duration_ms }
    }
}

/// Progress report of one call of incremental compaction.
#[non_exhaustive]
#[derive(Debug, Clone, Copy)]
pub struct CompactProgress {
    /// Number of pages relocated in this call.
    pub pages_relocated: u64,
    /// Bytes freed (truncated) in this call. Non-zero only on the final step.
    pub bytes_freed: u64,
    /// `true` if at least one more call is needed to finish.
    pub more_work: bool,
    /// The `frontier_page_id` persisted to the catalog watermark after this
    /// call. `None` if the compaction session is complete (watermark cleared).
    pub watermark: Option<u64>,
}

impl Default for CompactProgress {
    fn default() -> (progress: Self)
        ensures
            progress.pages_relocated == 0,
            progress.bytes_freed == 0,
            !progress.more_work,
            progress.watermark is None,
    {
        Self { pages_relocated: 0, bytes_freed: 0, more_work: false, watermark: None }
    }
}

/// Statistics of a full compaction pass.
#[non_exhaustive]
#[derive(Debug, Clone, Copy)]
pub struct CompactStats {
    /// Number of main.db pages reclaimed (moved to free-list or freed by
    /// repacking).
    pub main_db_pages_reclaimed: u64,
    /// Number of segment files repacked.
    pub segments_repacked: u32,
    /// Bytes truncated from main.db by moving the high-water-mark down.
    pub bytes_truncated: u64,
    /// True when compaction declined to run at all because a reader pinned the
    /// page range.
    ///
    /// Every other field is zero in that case, which is otherwise
    /// indistinguishable from a successful pass that found nothing to reclaim.
    /// A caller retrying on the strength of a zero result needs to know which
    /// one it got: one means "already dense", the other means "try again with
    /// no readers".
    pub declined_readers_pinned: bool,
}

impl CompactStats {
    /// No page reclaimed, no byte truncated, no segment repacked.
    pub open spec fn nothing_done(self) -> bool {
        &&& self.main_db_pages_reclaimed == 0
        &&& self.segments_repacked == 0
        &&& self.bytes_truncated == 0
    }

    /// A pass that declined to run reports no work.
    pub open spec fn wf(self) -> bool {
        self.declined_readers_pinned ==> self.nothing_done()
    }
}

impl Default for CompactStats {
    fn default() -> (stats: Self)
        ensures
            stats.nothing_done(),
            stats.main_db_pages_reclaimed == 0,
            stats.segments_repacked == 0,
            stats.bytes_truncated == 0,
            !stats.declined_readers_pinned,
    {
        Self {
            main_db_pages_reclaimed: 0,
            segments_repacked: 0,
            bytes_truncated: 0,
            declined_readers_pinned: false,
        }
    }
}

} // verus!
