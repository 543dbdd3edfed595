//! Full one-shot compaction:
//!
//! 1. Refuses while any reader pins the page range (relocation/truncation is
//!    unsafe under a pinned reader).
//! 2. Has the main + catalog trees repacked into a dense low-address layout and
//!    the reclaimed tail truncated, unless the free list is empty.
//! 3. Repacks segment files whose garbage ratio exceeds 5%.
//!
//! However it ends, a pass gives back what it took: reader admission first, then
//! the writer lock.

use crate::catalog::SegmentRow;
use crate::catalog::cursor_behind;
use crate::catalog::resume_cursor;
use crate::errors::PagedbError;
use crate::options::CompactOptions;
use crate::segment::SegmentAction;
use crate::segment::SegmentEvent;
use crate::segment::SegmentOutcome;
use crate::segment::SegmentRepack;
use crate::segment::SegmentRequest;
use crate::segment::SegmentStage;
use crate::segment::SegmentState;
use crate::types::CompactStats;
use vstd::prelude::*;

verus! {

/// The mode that a store is opened in.
#[derive(Debug, Clone, Copy, PartialEq, Eq)]
pub enum DbMode {
    /// The store is this process's own.
    Standalone,
}

/// What a mode has to allow.
#[derive(Debug, Clone, Copy, PartialEq, Eq)]
pub enum ModeCapability {
    /// Rewriting the store's files without changing what they hold.
    StoreMaintenance,
}

/// What a dense repack of the main file gained.
#[derive(Debug, Clone, Copy)]
pub struct DenseRepack {
    /// Pages no longer in the file.
    pub pages_reclaimed: u64,
    /// Bytes cut off the end of the file.
    pub bytes_truncated: u64,
}

/// The answer to an [`Action`].
#[derive(Debug)]
pub enum Event<K, E> {
    /// Whether the store is usable.
    Usable(Result<(), PagedbError<E>>),
    /// Whether the store's mode allows the operation.
    ModeAllowed(Result<(), PagedbError<E>>),
    /// The writer lock is held.
    WriterLocked,
    /// No reader is admitted any more.
    ReaderAdmissionClosed,
    /// No page id is cached for reuse any more.
    FreePageCacheCleared,
    /// How many readers the store tracks.
    ReadersCounted(usize),
    /// The page id of the free list's root; zero where the list is empty.
    FreeListRoot(u64),
    /// What the dense repack gained.
    DenseRepacked(Result<DenseRepack, PagedbError<E>>),
    /// The next rows of segments.
    SegmentRows(Result<Vec<SegmentRow<K>>, PagedbError<E>>),
    /// The answer to work on a segment.
    Segment(SegmentEvent<K, E>),
    /// Readers are admitted again.
    ReaderAdmissionReopened,
    /// The writer lock is free.
    WriterUnlocked,
}

/// Work to be done for a full compaction.
#[derive(Debug)]
pub enum Action<'a, K> {
    /// Report whether the store is usable.
    EnsureUsable,
    /// Report whether the store's mode allows `operation`.
    RequireMode { operation: &'static str, mode: DbMode, capability: ModeCapability },
    /// Take the writer lock, to be held until it is asked back.
    LockWriter,
    /// Shut out new readers, until they are asked back in.
    CloseReaderAdmission,
    /// Drop every page id cached for reuse.
    ClearFreePageCache,
    /// Count the readers that the store tracks.
    CountReaders,
    /// Report the root of the free list.
    ReadFreeListRoot,
    /// Repack the main and catalog trees densely, crash-atomically.
    DenseRepack,
    /// Read the batch of segment rows that starts at `cursor`.
    FetchSegmentRows { cursor: &'a [u8] },
    /// Work on a segment.
    Segment(SegmentAction<'a, K>),
    /// Close what is still open of a segment, then admit readers again.
    ReopenReaderAdmission,
    /// Give the writer lock back.
    UnlockWriter,
}

/// What an [`Action`] asks for.
pub enum Request<K> {
    EnsureUsable,
    RequireMode { operation: Seq<char>, mode: DbMode, capability: ModeCapability },
    LockWriter,
    CloseReaderAdmission,
    ClearFreePageCache,
    CountReaders,
    ReadFreeListRoot,
    DenseRepack,
    FetchSegmentRows { cursor: Seq<u8> },
    Segment(SegmentRequest<K>),
    ReopenReaderAdmission,
    UnlockWriter,
}

impl<'a, K> View for Action<'a, K> {
    type V = Request<K>;

    open spec fn view(&self) -> Request<K> {
        match *self {
            Action::EnsureUsable => Request::EnsureUsable,
            Action::RequireMode { operation, mode, capability } => Request::RequireMode {
                operation: operation@,
                mode,
                capability,
            },
            Action::LockWriter => Request::LockWriter,
            Action::CloseReaderAdmission => Request::CloseReaderAdmission,
            Action::ClearFreePageCache => Request::ClearFreePageCache,
            Action::CountReaders => Request::CountReaders,
            Action::ReadFreeListRoot => Request::ReadFreeListRoot,
            Action::DenseRepack => Request::DenseRepack,
            Action::FetchSegmentRows { cursor } => Request::FetchSegmentRows { cursor: cursor@ },
            Action::Segment(action) => Request::Segment(action@),
            Action::ReopenReaderAdmission => Request::ReopenReaderAdmission,
            Action::UnlockWriter => Request::UnlockWriter,
        }
    }
}

impl<K, E> Event<K, E> {
    /// The error that stops the pass, if the answer brings one.
    pub open spec fn failure(self) -> Option<PagedbError<E>> {
        match self {
            Event::Usable(Err(e)) => Some(e),
            Event::ModeAllowed(Err(e)) => Some(e),
            Event::DenseRepacked(Err(e)) => Some(e),
            Event::SegmentRows(Err(e)) => Some(e),
            Event::Segment(event) => event.failure(),
            _ => None,
        }
    }
}

/// The part of a pass that waits for work.
pub enum CompactPhase<K, E> {
    EnsureUsable,
    RequireMode,
    LockWriter,
    /// As the first check, now under the writer lock.
    EnsureStillUsable,
    CloseReaderAdmission,
    ClearFreePageCache,
    CountReaders,
    ReadFreeListRoot,
    DenseRepack,
    FetchSegmentRows { cursor: Seq<u8> },
    /// `segment` is at work, `rest` waits behind it in the same batch. After
    /// the batch the stream goes on at `cursor`, unless it is `exhausted`.
    RepackSegments {
        segment: SegmentState<K, E>,
        rest: Seq<SegmentRow<K>>,
        cursor: Seq<u8>,
        exhausted: bool,
    },
    /// The result is settled, and readers are still shut out.
    ReopenReaderAdmission { result: Result<CompactStats, PagedbError<E>> },
    /// The result is settled, and the writer lock is still held.
    UnlockWriter { result: Result<CompactStats, PagedbError<E>> },
    Done(Result<CompactStats, PagedbError<E>>),
}

/// Where a full compaction stands.
pub struct CompactState<K, E> {
    pub options: CompactOptions,
    /// What has been gained so far.
    pub stats: CompactStats,
    pub phase: CompactPhase<K, E>,
}

/// The statistics of a pass that has done nothing yet.
pub open spec fn no_stats() -> CompactStats {
    CompactStats {
        main_db_pages_reclaimed: 0,
        segments_repacked: 0,
        bytes_truncated: 0,
        declined_readers_pinned: false,
    }
}

impl<K, E> CompactState<K, E> {
    /// The state before any work.
    pub open spec fn initial(options: CompactOptions) -> Self {
        CompactState { options, stats: no_stats(), phase: CompactPhase::EnsureUsable }
    }

    /// Nothing is gained before the readers are known to be gone and the free
    /// list to be non-empty; a pass that declined reports no work; a segment at
    /// work has not ended.
    pub open spec fn wf(self) -> bool {
        match self.phase {
            CompactPhase::FetchSegmentRows { cursor } => !self.stats.declined_readers_pinned,
            CompactPhase::RepackSegments { segment, rest, cursor, exhausted } => {
                &&& !self.stats.declined_readers_pinned
                &&& segment.options == self.options
                &&& segment.wf()
                &&& !(segment.stage is Done)
            },
            CompactPhase::ReopenReaderAdmission { result } => result matches Ok(stats)
                ==> stats.wf(),
            CompactPhase::UnlockWriter { result } => result matches Ok(stats) ==> stats.wf(),
            CompactPhase::Done(result) => result matches Ok(stats) ==> stats.wf(),
            _ => self.stats == no_stats(),
        }
    }

    /// The work that is waited for, if the pass has not ended.
    pub open spec fn request(self) -> Option<Request<K>> {
        match self.phase {
            CompactPhase::EnsureUsable => Some(Request::EnsureUsable),
            CompactPhase::RequireMode => Some(
                Request::RequireMode {
                    operation: "compaction"@,
                    mode: DbMode::Standalone,
                    capability: ModeCapability::StoreMaintenance,
                },
            ),
            CompactPhase::LockWriter => Some(Request::LockWriter),
            CompactPhase::EnsureStillUsable => Some(Request::EnsureUsable),
            CompactPhase::CloseReaderAdmission => Some(Request::CloseReaderAdmission),
            CompactPhase::ClearFreePageCache => Some(Request::ClearFreePageCache),
            CompactPhase::CountReaders => Some(Request::CountReaders),
            CompactPhase::ReadFreeListRoot => Some(Request::ReadFreeListRoot),
            CompactPhase::DenseRepack => Some(Request::DenseRepack),
            CompactPhase::FetchSegmentRows { cursor } => Some(
                Request::FetchSegmentRows { cursor },
            ),
            CompactPhase::RepackSegments { segment, rest, cursor, exhausted } =>
                match segment.request() {
                    Some(request) => Some(Request::Segment(request)),
                    None => None,
                },
            CompactPhase::ReopenReaderAdmission { result } => Some(Request::ReopenReaderAdmission),
            CompactPhase::UnlockWriter { result } => Some(Request::UnlockWriter),
            CompactPhase::Done(_) => None,
        }
    }

    /// Whether one more repacked segment could not be counted.
    pub open spec fn is_count_full(self) -> bool {
        self.stats.segments_repacked == u32::MAX
    }

    /// Whether `event` answers the work that is waited for. The publication of
    /// a segment is no answer where it could not be counted.
    pub open spec fn is_answered_by(self, event: Event<K, E>) -> bool {
        match (self.phase, event) {
            (CompactPhase::EnsureUsable, Event::Usable(_)) => true,
            (CompactPhase::RequireMode, Event::ModeAllowed(_)) => true,
            (CompactPhase::LockWriter, Event::WriterLocked) => true,
            (CompactPhase::EnsureStillUsable, Event::Usable(_)) => true,
            (CompactPhase::CloseReaderAdmission, Event::ReaderAdmissionClosed) => true,
            (CompactPhase::ClearFreePageCache, Event::FreePageCacheCleared) => true,
            (CompactPhase::CountReaders, Event::ReadersCounted(_)) => true,
            (CompactPhase::ReadFreeListRoot, Event::FreeListRoot(_)) => true,
            (CompactPhase::DenseRepack, Event::DenseRepacked(_)) => true,
            (CompactPhase::FetchSegmentRows { cursor }, Event::SegmentRows(_)) => true,
            (
                CompactPhase::RepackSegments { segment, rest, cursor, exhausted },
                Event::Segment(answer),
            ) => segment.is_answered_by(answer) && !(self.is_count_full()
                && answer matches SegmentEvent::Replaced(Ok(_))),
            (
                CompactPhase::ReopenReaderAdmission { result },
                Event::ReaderAdmissionReopened,
            ) => true,
            (CompactPhase::UnlockWriter { result }, Event::WriterUnlocked) => true,
            _ => false,
        }
    }

    /// The same pass in another phase.
    pub open spec fn at(self, phase: CompactPhase<K, E>) -> Self {
        CompactState { phase, ..self }
    }

    /// The result is settled with the writer lock held and readers shut out.
    pub open spec fn settled_at_work(self, result: Result<CompactStats, PagedbError<E>>) -> Self {
        self.at(CompactPhase::ReopenReaderAdmission { result })
    }

    /// The pass fails; what it has taken by now is to be given back.
    pub open spec fn failed(self, e: PagedbError<E>) -> Self {
        match self.phase {
            CompactPhase::EnsureUsable => self.at(CompactPhase::Done(Err(e))),
            CompactPhase::RequireMode => self.at(CompactPhase::Done(Err(e))),
            CompactPhase::EnsureStillUsable => self.at(
                CompactPhase::UnlockWriter { result: Err(e) },
            ),
            _ => self.settled_at_work(Err(e)),
        }
    }

    /// The same pass with other gains.
    pub open spec fn with_stats(self, stats: CompactStats) -> Self {
        CompactState { stats, ..self }
    }

    /// The stream of segment rows from its start.
    pub open spec fn at_first_rows(self) -> Self {
        self.at(CompactPhase::FetchSegmentRows { cursor: seq![self.options.segment_row_kind] })
    }

    /// On to the next segment of the batch, the next batch, or the end.
    pub open spec fn at_next_segment(
        self,
        rest: Seq<SegmentRow<K>>,
        cursor: Seq<u8>,
        exhausted: bool,
    ) -> Self {
        if rest.len() > 0 {
            self.at(
                CompactPhase::RepackSegments {
                    segment: SegmentState::initial(self.options, rest[0]),
                    rest: rest.drop_first(),
                    cursor,
                    exhausted,
                },
            )
        } else if exhausted {
            self.settled_at_work(Ok(self.stats))
        } else {
            self.at(CompactPhase::FetchSegmentRows { cursor })
        }
    }

    /// After a batch of rows: an empty one ends the pass, one shorter than a
    /// full batch is the last.
    pub open spec fn with_rows(self, rows: Seq<SegmentRow<K>>) -> Self {
        if rows.len() == 0 {
            self.settled_at_work(Ok(self.stats))
        } else {
            self.at_next_segment(
                rows,
                cursor_behind(rows.last().key@),
                rows.len() < self.options.segment_row_batch,
            )
        }
    }

    /// After the readers were counted: under any reader the pass declines.
    pub open spec fn with_readers(self, readers: usize) -> Self {
        if readers > 0 {
            self.settled_at_work(Ok(CompactStats { declined_readers_pinned: true, ..self.stats }))
        } else {
            self.at(CompactPhase::ReadFreeListRoot)
        }
    }

    /// After the dense repack.
    pub open spec fn with_dense_repack(self, gained: DenseRepack) -> Self {
        self.at_first_rows().with_stats(
            CompactStats {
                main_db_pages_reclaimed: gained.pages_reclaimed,
                bytes_truncated: gained.bytes_truncated,
                ..self.stats
            },
        )
    }

    /// One more segment repacked.
    pub open spec fn with_segment_counted(self) -> Self {
        self.with_stats(
            CompactStats {
                segments_repacked: (self.stats.segments_repacked + 1) as u32,
                ..self.stats
            },
        )
    }

    /// After work on the segment that brought it to `segment`.
    pub open spec fn with_segment(
        self,
        segment: SegmentState<K, E>,
        rest: Seq<SegmentRow<K>>,
        cursor: Seq<u8>,
        exhausted: bool,
    ) -> Self {
        match segment.stage {
            SegmentStage::Done(SegmentOutcome::Failed(e)) => self.settled_at_work(Err(e)),
            SegmentStage::Done(SegmentOutcome::Skipped) => self.at_next_segment(
                rest,
                cursor,
                exhausted,
            ),
            SegmentStage::Done(
                SegmentOutcome::Repacked,
            ) => self.with_segment_counted().at_next_segment(rest, cursor, exhausted),
            _ => self.at(CompactPhase::RepackSegments { segment, rest, cursor, exhausted }),
        }
    }

    /// The state after an answer that brings no failure.
    pub open spec fn advanced(self, event: Event<K, E>) -> Self {
        match (self.phase, event) {
            (CompactPhase::EnsureUsable, _) => self.at(CompactPhase::RequireMode),
            (CompactPhase::RequireMode, _) => self.at(CompactPhase::LockWriter),
            (CompactPhase::LockWriter, _) => self.at(CompactPhase::EnsureStillUsable),
            (CompactPhase::EnsureStillUsable, _) => self.at(CompactPhase::CloseReaderAdmission),
            (CompactPhase::CloseReaderAdmission, _) => self.at(CompactPhase::ClearFreePageCache),
            (CompactPhase::ClearFreePageCache, _) => self.at(CompactPhase::CountReaders),
            (_, Event::ReadersCounted(readers)) => self.with_readers(readers),
            (_, Event::FreeListRoot(root)) => if root != 0 {
                self.at(CompactPhase::DenseRepack)
            } else {
                self.at_first_rows()
            },
            (_, Event::DenseRepacked(Ok(gained))) => self.with_dense_repack(gained),
            (_, Event::SegmentRows(Ok(rows))) => self.with_rows(rows@),
            (
                CompactPhase::RepackSegments { segment, rest, cursor, exhausted },
                Event::Segment(answer),
            ) => match segment.after(answer) {
                Some(segment) => self.with_segment(segment, rest, cursor, exhausted),
                None => self,
            },
            (CompactPhase::ReopenReaderAdmission { result }, _) => self.at(
                CompactPhase::UnlockWriter { result },
            ),
            (CompactPhase::UnlockWriter { result }, _) => self.at(CompactPhase::Done(result)),
            _ => self,
        }
    }

    /// The state after `event`, or `None` where `event` does not answer the
    /// work that is waited for.
    pub open spec fn after(self, event: Event<K, E>) -> Option<Self> {
        if !self.is_answered_by(event) {
            None
        } else {
            Some(
                match event.failure() {
                    Some(e) => self.failed(e),
                    None => self.advanced(event),
                },
            )
        }
    }

    /// The result that the pass has come to, whether or not everything it took
    /// is given back by now.
    pub open spec fn settled(self) -> Option<Result<CompactStats, PagedbError<E>>> {
        match self.phase {
            CompactPhase::ReopenReaderAdmission { result } => Some(result),
            CompactPhase::UnlockWriter { result } => Some(result),
            CompactPhase::Done(result) => Some(result),
            _ => None,
        }
    }

    /// The result of the pass, once it has ended.
    pub open spec fn outcome(self) -> Option<Result<CompactStats, PagedbError<E>>> {
        match self.phase {
            CompactPhase::Done(result) => Some(result),
            _ => None,
        }
    }
}

/// The executable form of a [`CompactPhase`].
enum Phase<K, E> {
    EnsureUsable,
    RequireMode,
    LockWriter,
    EnsureStillUsable,
    CloseReaderAdmission,
    ClearFreePageCache,
    CountReaders,
    ReadFreeListRoot,
    DenseRepack,
    FetchSegmentRows { cursor: Vec<u8> },
    /// `waiting` holds the rest of the batch, its first row at the end.
    RepackSegments {
        segment: SegmentRepack<K, E>,
        waiting: Vec<SegmentRow<K>>,
        cursor: Vec<u8>,
        exhausted: bool,
    },
    ReopenReaderAdmission { result: Result<CompactStats, PagedbError<E>> },
    UnlockWriter { result: Result<CompactStats, PagedbError<E>> },
    Done(Result<CompactStats, PagedbError<E>>),
}

impl<K, E> Phase<K, E> {
    spec fn state(self) -> CompactPhase<K, E> {
        match self {
            Phase::EnsureUsable => CompactPhase::EnsureUsable,
            Phase::RequireMode => CompactPhase::RequireMode,
            Phase::LockWriter => CompactPhase::LockWriter,
            Phase::EnsureStillUsable => CompactPhase::EnsureStillUsable,
            Phase::CloseReaderAdmission => CompactPhase::CloseReaderAdmission,
            Phase::ClearFreePageCache => CompactPhase::ClearFreePageCache,
            Phase::CountReaders => CompactPhase::CountReaders,
            Phase::ReadFreeListRoot => CompactPhase::ReadFreeListRoot,
            Phase::DenseRepack => CompactPhase::DenseRepack,
            Phase::FetchSegmentRows { cursor } => CompactPhase::FetchSegmentRows {
                cursor: cursor@,
            },
            Phase::RepackSegments { segment, waiting, cursor, exhausted } =>
                CompactPhase::RepackSegments {
                    segment: segment@,
                    rest: waiting@.reverse(),
                    cursor: cursor@,
                    exhausted,
                },
            Phase::ReopenReaderAdmission { result } => CompactPhase::ReopenReaderAdmission {
                result,
            },
            Phase::UnlockWriter { result } => CompactPhase::UnlockWriter { result },
            Phase::Done(result) => CompactPhase::Done(result),
        }
    }
}

/// The rows in the opposite order.
fn reversed<K>(rows: Vec<SegmentRow<K>>) -> (waiting: Vec<SegmentRow<K>>)
    ensures
        waiting@ == rows@.reverse(),
{
    let mut rows: Vec<SegmentRow<K>> = rows;
    let ghost all = rows@;
    let mut waiting: Vec<SegmentRow<K>> = Vec::new();
    while rows.len() > 0
        invariant
            rows@.len() <= all.len(),
            rows@ == all.take(rows@.len() as int),
            waiting@ == all.skip(rows@.len() as int).reverse(),
        decreases rows@.len(),
    {
        if let Some(row) = rows.pop() {
            waiting.push(row);
        }
        assert(rows@ =~= all.take(rows@.len() as int));
        assert(waiting@ =~= all.skip(rows@.len() as int).reverse());
    }
    assert(all.skip(0) =~= all);
    waiting
}

/// A full compaction pass.
pub struct CompactNow<K, E> {
    options: CompactOptions,
    stats: CompactStats,
    phase: Phase<K, E>,
}

impl<K, E> View for CompactNow<K, E> {
    type V = CompactState<K, E>;

    closed spec fn view(&self) -> CompactState<K, E> {
        CompactState { options: self.options, stats: self.stats, phase: self.phase.state() }
    }
}

/// Starts a full compaction: a pass that names its work step by step.
pub fn compact_now<K, E>(options: CompactOptions) -> (pass: CompactNow<K, E>)
    ensures
        pass@ == CompactState::<K, E>::initial(options),
{
    CompactNow { options, stats: CompactStats::default(), phase: Phase::EnsureUsable }
}

impl<K, E> CompactNow<K, E> {
    #[verifier::type_invariant]
    spec fn inv(self) -> bool {
        self@.wf()
    }

    /// The work to do next; `None` once the pass has ended.
    pub fn next_action(&self) -> (action: Option<Action<'_, K>>)
        ensures
            match self@.request() {
                Some(request) => action matches Some(a) && a@ == request,
                None => action is None,
            },
            action is None <==> self@.outcome() is Some,
    {
        proof {
            use_type_invariant(self);
        }
        match &self.phase {
            Phase::EnsureUsable => Some(Action::EnsureUsable),
            Phase::RequireMode => Some(
                Action::RequireMode {
                    operation: "compaction",
                    mode: DbMode::Standalone,
                    capability: ModeCapability::StoreMaintenance,
                },
            ),
            Phase::LockWriter => Some(Action::LockWriter),
            Phase::EnsureStillUsable => Some(Action::EnsureUsable),
            Phase::CloseReaderAdmission => Some(Action::CloseReaderAdmission),
            Phase::ClearFreePageCache => Some(Action::ClearFreePageCache),
            Phase::CountReaders => Some(Action::CountReaders),
            Phase::ReadFreeListRoot => Some(Action::ReadFreeListRoot),
            Phase::DenseRepack => Some(Action::DenseRepack),
            Phase::FetchSegmentRows { cursor } => Some(
                Action::FetchSegmentRows { cursor: cursor.as_slice() },
            ),
            Phase::RepackSegments { segment, .. } => match segment.next_action() {
                Some(action) => Some(Action::Segment(action)),
                None => None,
            },
            Phase::ReopenReaderAdmission { .. } => Some(Action::ReopenReaderAdmission),
            Phase::UnlockWriter { .. } => Some(Action::UnlockWriter),
            Phase::Done(_) => None,
        }
    }

    fn at_first_rows(options: CompactOptions, stats: CompactStats) -> (pass: Self)
        requires
            !stats.declined_readers_pinned,
        ensures
            pass@ == CompactState::<K, E>::initial(options).at_first_rows().with_stats(stats),
    {
        let mut cursor: Vec<u8> = Vec::new();
        cursor.push(options.segment_row_kind);
        assert(cursor@ =~= seq![options.segment_row_kind]);
        CompactNow { options, stats, phase: Phase::FetchSegmentRows { cursor } }
    }

    fn at_next_segment(
        options: CompactOptions,
        stats: CompactStats,
        waiting: Vec<SegmentRow<K>>,
        cursor: Vec<u8>,
        exhausted: bool,
    ) -> (pass: Self)
        requires
            !stats.declined_readers_pinned,
        ensures
            pass@ == CompactState::<K, E>::initial(options).with_stats(stats).at_next_segment(
                waiting@.reverse(),
                cursor@,
                exhausted,
            ),
    {
        let mut waiting: Vec<SegmentRow<K>> = waiting;
        let ghost rest = waiting@.reverse();
        match waiting.pop() {
            Some(row) => {
                assert(waiting@.reverse() =~= rest.drop_first());
                let segment: SegmentRepack<K, E> = SegmentRepack::new(options, row);
                CompactNow {
                    options,
                    stats,
                    phase: Phase::RepackSegments { segment, waiting, cursor, exhausted },
                }
            },
            None => if exhausted {
                let phase: Phase<K, E> = Phase::ReopenReaderAdmission { result: Ok(stats) };
                CompactNow { options, stats, phase }
            } else {
                CompactNow { options, stats, phase: Phase::FetchSegmentRows { cursor } }
            },
        }
    }

    fn with_rows(
        options: CompactOptions,
        stats: CompactStats,
        rows: Vec<SegmentRow<K>>,
    ) -> (pass: Self)
        requires
            !stats.declined_readers_pinned,
        ensures
            pass@ == CompactState::<K, E>::initial(options).with_stats(stats).with_rows(rows@),
    {
        let count: usize = rows.len();
        if count == 0 {
            let phase: Phase<K, E> = Phase::ReopenReaderAdmission { result: Ok(stats) };
            return CompactNow { options, stats, phase };
        }
        let cursor: Vec<u8> = resume_cursor(rows[count - 1].key.as_slice());
        let exhausted: bool = count < options.segment_row_batch;
        let ghost all = rows@;
        let waiting: Vec<SegmentRow<K>> = reversed(rows);
        assert(waiting@.reverse() =~= all);
        Self::at_next_segment(options, stats, waiting, cursor, exhausted)
    }

    fn with_segment(
        options: CompactOptions,
        stats: CompactStats,
        segment: SegmentRepack<K, E>,
        waiting: Vec<SegmentRow<K>>,
        cursor: Vec<u8>,
        exhausted: bool,
    ) -> (pass: Self)
        requires
            !stats.declined_readers_pinned,
            segment@.options == options,
            segment@.wf(),
            segment@.stage matches SegmentStage::Done(SegmentOutcome::Repacked)
                ==> stats.segments_repacked < u32::MAX,
        ensures
            pass@ == CompactState::<K, E>::initial(options).with_stats(stats).with_segment(
                segment@,
                waiting@.reverse(),
                cursor@,
                exhausted,
            ),
    {
        match segment.into_outcome() {
            Ok(SegmentOutcome::Failed(e)) => CompactNow {
                options,
                stats,
                phase: Phase::ReopenReaderAdmission { result: Err(e) },
            },
            Ok(SegmentOutcome::Skipped) => Self::at_next_segment(
                options,
                stats,
                waiting,
                cursor,
                exhausted,
            ),
            Ok(SegmentOutcome::Repacked) => {
                let mut stats: CompactStats = stats;
                stats.segments_repacked = stats.segments_repacked + 1;
                Self::at_next_segment(options, stats, waiting, cursor, exhausted)
            },
            Err(segment) => CompactNow {
                options,
                stats,
                phase: Phase::RepackSegments { segment, waiting, cursor, exhausted },
            },
        }
    }

    fn resume_segment(
        options: CompactOptions,
        stats: CompactStats,
        segment: SegmentRepack<K, E>,
        waiting: Vec<SegmentRow<K>>,
        cursor: Vec<u8>,
        exhausted: bool,
        answer: SegmentEvent<K, E>,
    ) -> (next: Result<Self, (Self, Event<K, E>)>)
        requires
            !stats.declined_readers_pinned,
            segment@.options == options,
            segment@.wf(),
            !(segment@.stage is Done),
        ensures
            ({
                let phase = Phase::RepackSegments { segment, waiting, cursor, exhausted };
                let pass = CompactNow { options, stats, phase };
                let event = Event::Segment(answer);
                match pass@.after(event) {
                    Some(state) => next matches Ok(n) && n@ == state,
                    None => next == Err::<Self, (Self, Event<K, E>)>((pass, event)),
                }
            }),
    {
        let full: bool = stats.segments_repacked == u32::MAX;
        if full && matches!(answer, SegmentEvent::Replaced(Ok(_))) {
            let phase: Phase<K, E> = Phase::RepackSegments { segment, waiting, cursor, exhausted };
            return Err((CompactNow { options, stats, phase }, Event::Segment(answer)));
        }
        match segment.resume(answer) {
            Ok(segment) => Ok(
                Self::with_segment(options, stats, segment, waiting, cursor, exhausted),
            ),
            Err((segment, answer)) => {
                let phase: Phase<K, E> = Phase::RepackSegments {
                    segment,
                    waiting,
                    cursor,
                    exhausted,
                };
                Err((CompactNow { options, stats, phase }, Event::Segment(answer)))
            },
        }
    }

    /// Moves on with the answer to the work that was asked for.
    ///
    /// An event that does not answer it is handed back, with the pass as it
    /// was. So is the publication of a segment where the count of repacked
    /// segments is at its limit.
    pub fn resume(self, event: Event<K, E>) -> (next: Result<Self, (Self, Event<K, E>)>)
        ensures
            match self@.after(event) {
                Some(state) => next matches Ok(n) && n@ == state,
                None => next == Err::<Self, (Self, Event<K, E>)>((self, event)),
            },
    {
        proof {
            use_type_invariant(&self);
        }
        let CompactNow { options, stats, phase } = self;
        let phase: Phase<K, E> = match (phase, event) {
            (Phase::EnsureUsable, Event::Usable(Ok(_))) => Phase::RequireMode,
            (Phase::EnsureUsable, Event::Usable(Err(e)))
            | (Phase::RequireMode, Event::ModeAllowed(Err(e))) => Phase::Done(Err(e)),
            (Phase::EnsureStillUsable, Event::Usable(Err(e))) => Phase::UnlockWriter {
                result: Err(e),
            },
            (Phase::DenseRepack, Event::DenseRepacked(Err(e)))
            | (Phase::FetchSegmentRows { .. }, Event::SegmentRows(Err(e))) =>
                Phase::ReopenReaderAdmission { result: Err(e) },
            (Phase::RequireMode, Event::ModeAllowed(Ok(_))) => Phase::LockWriter,
            (Phase::LockWriter, Event::WriterLocked) => Phase::EnsureStillUsable,
            (Phase::EnsureStillUsable, Event::Usable(Ok(_))) => Phase::CloseReaderAdmission,
            (Phase::CloseReaderAdmission, Event::ReaderAdmissionClosed) =>
                Phase::ClearFreePageCache,
            (Phase::ClearFreePageCache, Event::FreePageCacheCleared) => Phase::CountReaders,
            (Phase::CountReaders, Event::ReadersCounted(readers)) => if readers > 0 {
                let mut declined: CompactStats = stats;
                declined.declined_readers_pinned = true;
                Phase::ReopenReaderAdmission { result: Ok(declined) }
            } else {
                Phase::ReadFreeListRoot
            },
            (Phase::ReadFreeListRoot, Event::FreeListRoot(root)) => if root != 0 {
                Phase::DenseRepack
            } else {
                return Ok(Self::at_first_rows(options, stats));
            },
            (Phase::DenseRepack, Event::DenseRepacked(Ok(gained))) => {
                let mut stats: CompactStats = stats;
                stats.main_db_pages_reclaimed = gained.pages_reclaimed;
                stats.bytes_truncated = gained.bytes_truncated;
                return Ok(Self::at_first_rows(options, stats));
            },
            (Phase::FetchSegmentRows { .. }, Event::SegmentRows(Ok(rows))) => {
                return Ok(Self::with_rows(options, stats, rows));
            },
            (
                Phase::RepackSegments { segment, waiting, cursor, exhausted },
                Event::Segment(answer),
            ) => {
                return Self::resume_segment(
                    options,
                    stats,
                    segment,
                    waiting,
                    cursor,
                    exhausted,
                    answer,
                );
            },
            (Phase::ReopenReaderAdmission { result }, Event::ReaderAdmissionReopened) =>
                Phase::UnlockWriter { result },
            (Phase::UnlockWriter { result }, Event::WriterUnlocked) => Phase::Done(result),
            (phase, event) => {
                return Err((CompactNow { options, stats, phase }, event));
            },
        };
        Ok(CompactNow { options, stats, phase })
    }

    /// The result of the pass; the pass itself where it has not ended.
    pub fn into_outcome(self) -> (outcome: Result<Result<CompactStats, PagedbError<E>>, Self>)
        ensures
            match self@.outcome() {
                Some(result) => outcome == Ok::<Result<CompactStats, PagedbError<E>>, Self>(result),
                None => outcome == Err::<Result<CompactStats, PagedbError<E>>, Self>(self),
            },
            outcome matches Ok(Ok(stats)) ==> stats.wf(),
    {
        proof {
            use_type_invariant(&self);
        }
        let CompactNow { options, stats, phase } = self;
        match phase {
            Phase::Done(result) => Ok(result),
            phase => Err(CompactNow { options, stats, phase }),
        }
    }
}

} // verus!
