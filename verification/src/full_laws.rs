//! What holds of every full compaction, from its first answer to its last.

use crate::errors::PagedbError;
use crate::full::CompactPhase;
use crate::full::CompactState;
use crate::full::DenseRepack;
use crate::full::Event;
use crate::options::CompactOptions;
use crate::segment::SegmentEvent;
use crate::segment::is_wasteful;
use crate::segment_laws::error_in;
use crate::types::CompactStats;
use vstd::prelude::*;

verus! {

/// The state of a pass after the answers `events`, or `None` where one of them
/// answers nothing that was asked.
pub open spec fn pass_after<K, E>(options: CompactOptions, events: Seq<Event<K, E>>) -> Option<
    CompactState<K, E>,
>
    decreases events.len(),
{
    if events.len() == 0 {
        Some(CompactState::initial(options))
    } else {
        match pass_after(options, events.drop_last()) {
            Some(state) => state.after(events.last()),
            None => None,
        }
    }
}

/// The error that an answer brings, whatever becomes of it.
pub open spec fn error_brought<K, E>(event: Event<K, E>) -> Option<PagedbError<E>> {
    match event {
        Event::Usable(Err(e)) => Some(e),
        Event::ModeAllowed(Err(e)) => Some(e),
        Event::DenseRepacked(Err(e)) => Some(e),
        Event::SegmentRows(Err(e)) => Some(e),
        Event::Segment(answer) => error_in(answer),
        _ => None,
    }
}

/// Whether an answer reports a page of a segment as not found.
pub open spec fn is_missing_page<K, E>(event: Event<K, E>) -> bool {
    event matches Event::Segment(SegmentEvent::PageRead(Err(PagedbError::NotFound)))
}

/// Whether an answer reports a segment's replacement as published.
pub open spec fn is_publication<K, E>(event: Event<K, E>) -> bool {
    event matches Event::Segment(SegmentEvent::Replaced(Ok(_)))
}

/// How many of `events` report a replacement as published.
pub open spec fn publication_count<K, E>(events: Seq<Event<K, E>>) -> nat
    decreases events.len(),
{
    if events.len() == 0 {
        0
    } else {
        publication_count(events.drop_last()) + if is_publication(events.last()) {
            1nat
        } else {
            0
        }
    }
}

/// Whether an answer reports something that the pass took as given back.
pub open spec fn is_release<K, E>(event: Event<K, E>) -> bool {
    event is ReaderAdmissionReopened || event is WriterUnlocked
}

/// The answers up to the one that settles the result: all but those at the end
/// that only give back what the pass took.
pub open spec fn working_answers<K, E>(events: Seq<Event<K, E>>) -> Seq<Event<K, E>>
    decreases events.len(),
{
    if events.len() > 0 && is_release(events.last()) {
        working_answers(events.drop_last())
    } else {
        events
    }
}

/// Whether the pass is at work on the store's files.
pub open spec fn is_at_work<K, E>(state: CompactState<K, E>) -> bool {
    state.phase is DenseRepack || state.phase is FetchSegmentRows || state.phase is RepackSegments
}

/// Whether `events` bring nothing but what the opening of a pass asks for, each
/// in its place and without an error: the store is usable, its mode allows
/// maintenance, the writer lock is held, the store is still usable, readers are
/// shut out, no page id is cached for reuse, the readers are counted.
pub open spec fn opens_in_order<K, E>(events: Seq<Event<K, E>>) -> bool {
    &&& events.len() > 0 ==> (events[0] matches Event::Usable(Ok(_)))
    &&& events.len() > 1 ==> (events[1] matches Event::ModeAllowed(Ok(_)))
    &&& events.len() > 2 ==> events[2] is WriterLocked
    &&& events.len() > 3 ==> (events[3] matches Event::Usable(Ok(_)))
    &&& events.len() > 4 ==> events[4] is ReaderAdmissionClosed
    &&& events.len() > 5 ==> events[5] is FreePageCacheCleared
    &&& events.len() > 6 ==> events[6] is ReadersCounted
    &&& events.len() > 7 ==> events[7] is FreeListRoot
}

/// Whether `events` bring the whole opening of a pass, and no reader was
/// counted.
pub open spec fn is_cleared_for_work<K, E>(events: Seq<Event<K, E>>) -> bool {
    &&& events.len() >= 8
    &&& opens_in_order(events)
    &&& events[6]->ReadersCounted_0 == 0
}

/// What the dense repack gained, where it was needed: it is not where the free
/// list is empty.
pub open spec fn dense_gain<K, E>(events: Seq<Event<K, E>>) -> DenseRepack {
    if events[7]->FreeListRoot_0 != 0 {
        events[8]->DenseRepacked_0->Ok_0
    } else {
        DenseRepack { pages_reclaimed: 0, bytes_truncated: 0 }
    }
}

/// Whether the answer to the dense repack stands where it belongs: right behind
/// the root of a free list that is not empty, and nowhere else.
pub open spec fn dense_repack_in_place<K, E>(events: Seq<Event<K, E>>) -> bool {
    &&& events[7]->FreeListRoot_0 != 0 ==> events.len() > 8 && (
    events[8] matches Event::DenseRepacked(Ok(_)))
    &&& forall|i: int|
        0 <= i < events.len() && #[trigger] events[i] is DenseRepacked ==> i == 8
            && events[7]->FreeListRoot_0 != 0
}

/// A pass is well-formed throughout, and keeps its options.
pub proof fn lemma_pass_is_wf<K, E>(options: CompactOptions, events: Seq<Event<K, E>>)
    requires
        pass_after(options, events) is Some,
    ensures
        pass_after(options, events)->0.wf(),
        pass_after(options, events)->0.options == options,
    decreases events.len(),
{
    if events.len() > 0 {
        lemma_pass_is_wf(options, events.drop_last());
    }
}

/// Until its result is settled, a pass gives nothing back; then at most two
/// answers are left.
proof fn lemma_working_answers<K, E>(options: CompactOptions, events: Seq<Event<K, E>>)
    requires
        pass_after(options, events) is Some,
    ensures
        ({
            let state = pass_after(options, events)->0;
            let working = working_answers(events);
            &&& working.len() <= events.len()
            &&& working == events.take(working.len() as int)
            &&& match state.phase {
                CompactPhase::ReopenReaderAdmission { result } => working == events,
                CompactPhase::UnlockWriter { result } => events.len() <= working.len() + 1,
                CompactPhase::Done(result) => events.len() <= working.len() + 2,
                _ => working == events,
            }
        }),
    decreases events.len(),
{
    if events.len() > 0 {
        lemma_working_answers(options, events.drop_last());
        assert(events.take(events.len() as int) =~= events);
        let working = working_answers(events);
        if is_release(events.last()) {
            assert(events.take(working.len() as int) =~= events.drop_last().take(
                working.len() as int,
            ));
        }
    } else {
        assert(events.take(0) =~= events);
    }
}

/// A pass waits for work until it has ended, and for none afterwards: then no
/// answer is taken any more.
pub proof fn law_work_is_named_until_the_end<K, E>(
    options: CompactOptions,
    events: Seq<Event<K, E>>,
    event: Event<K, E>,
)
    requires
        pass_after(options, events) is Some,
    ensures
        pass_after(options, events)->0.request() is None <==> pass_after(
            options,
            events,
        )->0.phase is Done,
        pass_after(options, events)->0.phase is Done ==> pass_after(options, events)->0.after(
            event,
        ) is None,
{
    lemma_pass_is_wf(options, events);
}

/// No error is swallowed: whatever work an error comes from, the pass comes to
/// that error as its result. The one exception is a page of a segment that is
/// not found.
pub proof fn law_errors_surface<K, E>(state: CompactState<K, E>, event: Event<K, E>)
    requires
        state.after(event) is Some,
        error_brought(event) is Some,
        !is_missing_page(event),
    ensures
        state.after(event)->0.settled() == Some(
            Err::<CompactStats, PagedbError<E>>(error_brought(event)->0),
        ),
{
}

/// A result that the pass has come to stands: all that is left is to give back
/// what was taken.
pub proof fn law_settled_results_stand<K, E>(state: CompactState<K, E>, event: Event<K, E>)
    requires
        state.after(event) is Some,
        state.settled() is Some,
    ensures
        state.after(event)->0.settled() == state.settled(),
        is_release(event),
{
}

/// A pass fails only with an error that the last answer to its work brought, or
/// because a row of a segment that is due for a repack has a malformed key.
pub proof fn law_failures_have_a_cause<K, E>(
    options: CompactOptions,
    events: Seq<Event<K, E>>,
    e: PagedbError<E>,
)
    requires
        pass_after(options, events) is Some,
        pass_after(options, events)->0.settled() == Some(Err::<CompactStats, PagedbError<E>>(e)),
    ensures
        working_answers(events).len() > 0,
        error_brought(working_answers(events).last()) == Some(e) || {
            let before = pass_after(options, working_answers(events).drop_last());
            &&& e is MalformedSegmentKey
            &&& before is Some
            &&& before->0.phase is RepackSegments
            &&& !before->0.phase->segment.has_valid_key()
            &&& working_answers(events).last() matches Event::Segment(
                SegmentEvent::Measured(Ok(size)),
            )
            &&& is_wasteful(size, before->0.phase->segment.row.meta.total_bytes)
        },
    decreases events.len(),
{
    lemma_pass_is_wf(options, events.drop_last());
    if is_release(events.last()) {
        law_failures_have_a_cause(options, events.drop_last(), e);
    }
}

proof fn lemma_opening<K, E>(options: CompactOptions, events: Seq<Event<K, E>>)
    requires
        pass_after(options, events) is Some,
    ensures
        ({
            let state = pass_after(options, events)->0;
            let working = working_answers(events);
            let n = working.len();
            &&& (state.settled() matches Some(Err(_))) || opens_in_order(working)
            &&& match state.phase {
                CompactPhase::EnsureUsable => n == 0,
                CompactPhase::RequireMode => n == 1,
                CompactPhase::LockWriter => n == 2,
                CompactPhase::EnsureStillUsable => n == 3,
                CompactPhase::CloseReaderAdmission => n == 4,
                CompactPhase::ClearFreePageCache => n == 5,
                CompactPhase::CountReaders => n == 6,
                CompactPhase::ReadFreeListRoot => n == 7 && working[6]->ReadersCounted_0 == 0,
                CompactPhase::DenseRepack => n == 8 && is_cleared_for_work(working)
                    && working[7]->FreeListRoot_0 != 0,
                CompactPhase::FetchSegmentRows { cursor } => is_cleared_for_work(working),
                CompactPhase::RepackSegments { segment, rest, cursor, exhausted } =>
                    is_cleared_for_work(working),
                _ => match state.settled() {
                    Some(Ok(stats)) => if stats.declined_readers_pinned {
                        n == 7 && working[6]->ReadersCounted_0 > 0
                    } else {
                        is_cleared_for_work(working)
                    },
                    _ => true,
                },
            }
        }),
    decreases events.len(),
{
    if events.len() > 0 {
        let earlier = events.drop_last();
        lemma_opening(options, earlier);
        lemma_pass_is_wf(options, earlier);
        lemma_working_answers(options, earlier);
        assert(forall|i: int| 0 <= i < earlier.len() ==> earlier[i] == events[i]);
    }
}

/// No work on the store's files is asked for until everything that makes it
/// safe is in place, in order: usability, mode, the writer lock, usability
/// again, closed reader admission, an empty cache of free pages, no reader.
pub proof fn law_work_waits_for_clearance<K, E>(
    options: CompactOptions,
    events: Seq<Event<K, E>>,
)
    requires
        pass_after(options, events) is Some,
        is_at_work(pass_after(options, events)->0),
    ensures
        is_cleared_for_work(events),
{
    lemma_opening(options, events);
    lemma_working_answers(options, events);
}

/// The opening of a pass is asked for once and in one order: the writer lock,
/// then closed reader admission, then a cleared cache of free pages, then the
/// reader count. None of them is answered anywhere else in a pass.
pub proof fn law_opening_is_asked_once<K, E>(
    options: CompactOptions,
    events: Seq<Event<K, E>>,
    i: int,
)
    requires
        pass_after(options, events) is Some,
        0 <= i < events.len(),
    ensures
        events[i] is WriterLocked ==> i == 2,
        events[i] is ReaderAdmissionClosed ==> i == 4 && events[2] is WriterLocked,
        events[i] is FreePageCacheCleared ==> i == 5 && events[2] is WriterLocked
            && events[4] is ReaderAdmissionClosed,
        events[i] is ReadersCounted ==> i == 6 && events[2] is WriterLocked
            && events[4] is ReaderAdmissionClosed && events[5] is FreePageCacheCleared,
    decreases events.len(),
{
    let earlier = events.drop_last();
    lemma_opening(options, earlier);
    lemma_working_answers(options, earlier);
    if i < events.len() - 1 {
        law_opening_is_asked_once(options, earlier, i);
        assert(forall|j: int| 0 <= j < earlier.len() ==> earlier[j] == events[j]);
    }
}

/// Whether the writer lock is held after `events`.
pub open spec fn is_writer_locked<K, E>(events: Seq<Event<K, E>>) -> bool
    decreases events.len(),
{
    events.len() > 0 && (events.last() is WriterLocked || !(events.last() is WriterUnlocked)
        && is_writer_locked(events.drop_last()))
}

/// Whether readers are shut out after `events`.
pub open spec fn is_admission_closed<K, E>(events: Seq<Event<K, E>>) -> bool
    decreases events.len(),
{
    events.len() > 0 && (events.last() is ReaderAdmissionClosed || !(
    events.last() is ReaderAdmissionReopened) && is_admission_closed(events.drop_last()))
}

/// What a pass holds, at every moment.
///
/// The writer lock is held, and readers are shut out, whenever the cache of free
/// pages is cleared, the readers are counted, or the store's files are worked
/// on. Once the pass has ended, well or not, both are free again; readers are
/// let in before the lock goes.
pub proof fn law_guards_cover_the_work<K, E>(options: CompactOptions, events: Seq<Event<K, E>>)
    requires
        pass_after(options, events) is Some,
    ensures
        is_writer_locked(events) <==> match pass_after(options, events)->0.phase {
            CompactPhase::EnsureUsable => false,
            CompactPhase::RequireMode => false,
            CompactPhase::LockWriter => false,
            CompactPhase::Done(_) => false,
            _ => true,
        },
        is_admission_closed(events) <==> match pass_after(options, events)->0.phase {
            CompactPhase::EnsureUsable => false,
            CompactPhase::RequireMode => false,
            CompactPhase::LockWriter => false,
            CompactPhase::EnsureStillUsable => false,
            CompactPhase::CloseReaderAdmission => false,
            CompactPhase::UnlockWriter { result } => false,
            CompactPhase::Done(_) => false,
            _ => true,
        },
    decreases events.len(),
{
    if events.len() > 0 {
        law_guards_cover_the_work(options, events.drop_last());
    }
}

/// No page is moved under a reader or beside another writer: from the moment
/// the readers are counted until the result is settled, the writer lock is held
/// and readers are shut out without a break, and work on the store's files is
/// asked for only where none was counted.
pub proof fn law_pass_is_isolated<K, E>(
    options: CompactOptions,
    events: Seq<Event<K, E>>,
    n: int,
)
    requires
        pass_after(options, events) is Some,
        6 <= n <= working_answers(events).len(),
    ensures
        is_writer_locked(events.take(n)),
        is_admission_closed(events.take(n)),
        pass_after(options, events.take(n)) is Some,
        is_at_work(pass_after(options, events.take(n))->0) ==> events[6] is ReadersCounted
            && events[6]->ReadersCounted_0 == 0,
    decreases events.len(),
{
    let earlier = events.drop_last();
    lemma_working_answers(options, events);
    lemma_working_answers(options, earlier);
    if n == events.len() {
        assert(events.take(n) =~= events);
        lemma_opening(options, events);
        lemma_opening(options, earlier);
        law_guards_cover_the_work(options, events);
    } else {
        law_pass_is_isolated(options, earlier, n);
        assert(events.take(n) =~= earlier.take(n));
        lemma_opening(options, earlier.take(n));
        lemma_working_answers(options, earlier.take(n));
    }
}

proof fn lemma_gains<K, E>(options: CompactOptions, events: Seq<Event<K, E>>)
    requires
        pass_after(options, events) is Some,
    ensures
        ({
            let state = pass_after(options, events)->0;
            let working = working_answers(events);
            let repacked = CompactStats {
                main_db_pages_reclaimed: dense_gain(working).pages_reclaimed,
                segments_repacked: publication_count(events) as u32,
                bytes_truncated: dense_gain(working).bytes_truncated,
                declined_readers_pinned: false,
            };
            &&& state.stats.segments_repacked == publication_count(events)
            &&& match state.phase {
                CompactPhase::FetchSegmentRows { cursor } => state.stats == repacked
                    && dense_repack_in_place(working),
                CompactPhase::RepackSegments { segment, rest, cursor, exhausted } => state.stats
                    == repacked && dense_repack_in_place(working),
                _ => match state.settled() {
                    Some(Ok(stats)) => if stats.declined_readers_pinned {
                        publication_count(events) == 0
                    } else {
                        stats == repacked && dense_repack_in_place(working)
                    },
                    Some(Err(_)) => true,
                    None => forall|i: int| 0 <= i < events.len() ==> !(#[trigger] events[i] is
                        DenseRepacked),
                },
            }
        }),
    decreases events.len(),
{
    if events.len() > 0 {
        let earlier = events.drop_last();
        lemma_gains(options, earlier);
        lemma_opening(options, earlier);
        lemma_pass_is_wf(options, earlier);
        lemma_working_answers(options, earlier);
        assert(forall|i: int| 0 <= i < earlier.len() ==> earlier[i] == events[i]);
    }
}

/// The count of repacked segments is at all times the number of replacements
/// that were published.
pub proof fn law_publications_are_counted<K, E>(
    options: CompactOptions,
    events: Seq<Event<K, E>>,
)
    requires
        pass_after(options, events) is Some,
    ensures
        pass_after(options, events)->0.stats.segments_repacked == publication_count(events),
{
    lemma_gains(options, events);
}

/// What a pass that ends well reports.
///
/// With a reader pinned it declines: it says so, every count is zero, and no
/// work came after the reader count. Otherwise it says that it did not decline,
/// and reports what the dense repack gained, nothing where the free list was
/// empty and no dense repack was asked for, and how many replacements of
/// segments were published.
pub proof fn law_report_is_exact<K, E>(
    options: CompactOptions,
    events: Seq<Event<K, E>>,
    stats: CompactStats,
)
    requires
        pass_after(options, events) is Some,
        pass_after(options, events)->0.settled() == Some(
            Ok::<CompactStats, PagedbError<E>>(stats),
        ),
    ensures
        opens_in_order(working_answers(events)),
        working_answers(events).len() >= 7,
        stats.declined_readers_pinned <==> working_answers(events)[6]->ReadersCounted_0 > 0,
        stats.declined_readers_pinned ==> working_answers(events).len() == 7
            && stats.nothing_done(),
        !stats.declined_readers_pinned ==> {
            &&& is_cleared_for_work(working_answers(events))
            &&& dense_repack_in_place(working_answers(events))
            &&& stats.main_db_pages_reclaimed == dense_gain(
                working_answers(events),
            ).pages_reclaimed
            &&& stats.bytes_truncated == dense_gain(working_answers(events)).bytes_truncated
            &&& stats.segments_repacked == publication_count(events)
        },
{
    lemma_opening(options, events);
    lemma_gains(options, events);
    lemma_pass_is_wf(options, events);
}

/// The main file is rewritten at most once in a pass, whatever becomes of it,
/// and only where the free list is not empty.
pub proof fn law_dense_repack_is_asked_at_most_once<K, E>(
    options: CompactOptions,
    events: Seq<Event<K, E>>,
    i: int,
)
    requires
        pass_after(options, events) is Some,
        0 <= i < events.len(),
        events[i] is DenseRepacked,
    ensures
        i == 8,
        events[7] is FreeListRoot,
        events[7]->FreeListRoot_0 != 0,
    decreases events.len(),
{
    let earlier = events.drop_last();
    lemma_opening(options, earlier);
    lemma_working_answers(options, earlier);
    if i < earlier.len() {
        law_dense_repack_is_asked_at_most_once(options, earlier, i);
    }
    assert(forall|j: int| 0 <= j < earlier.len() ==> earlier[j] == events[j]);
}

/// Whether the stored values, `values[n]` after `n` answers, change across no
/// answer but that of the dense repack.
pub open spec fn only_dense_repack_touches<K, E, V>(
    events: Seq<Event<K, E>>,
    values: Seq<V>,
) -> bool {
    &&& values.len() == events.len() + 1
    &&& forall|i: int|
        0 <= i < events.len() && !(#[trigger] events[i] is DenseRepacked) ==> values[i + 1]
            == values[i]
}

/// Between two answers with no dense repack among those from the one to the
/// other, the stored values stay.
proof fn lemma_values_stay<K, E, V>(
    events: Seq<Event<K, E>>,
    values: Seq<V>,
    from: int,
    to: int,
)
    requires
        only_dense_repack_touches(events, values),
        0 <= from <= to <= events.len(),
        forall|i: int| from <= i < to ==> !(#[trigger] events[i] is DenseRepacked),
    ensures
        values[to] == values[from],
    decreases to - from,
{
    if from < to {
        lemma_values_stay(events, values, from, to - 1);
        assert(!(events[to - 1] is DenseRepacked));
    }
}

/// A pass asks for the trees to be rewritten at most once, and only over a free
/// list that is not empty. So where no other work touches the stored values,
/// they are the same after a pass as before it, finished or not, unless that one
/// dense repack changed them; and where the dense repack keeps them, so does the
/// pass.
pub proof fn law_stored_values_stay<K, E, V>(
    options: CompactOptions,
    events: Seq<Event<K, E>>,
    values: Seq<V>,
)
    requires
        pass_after(options, events) is Some,
        only_dense_repack_touches(events, values),
    ensures
        if events.len() > 8 && events[8] is DenseRepacked {
            &&& events[7]->FreeListRoot_0 != 0
            &&& values[8] == values[0]
            &&& values.last() == values[9]
            &&& values[9] == values[8] ==> values.last() == values[0]
        } else {
            values.last() == values[0]
        },
{
    let n = events.len() as int;
    assert forall|i: int| 0 <= i < n && i != 8 implies !(#[trigger] events[i] is DenseRepacked) by {
        if events[i] is DenseRepacked {
            law_dense_repack_is_asked_at_most_once(options, events, i);
        }
    }
    if n > 8 && events[8] is DenseRepacked {
        law_dense_repack_is_asked_at_most_once(options, events, 8);
        lemma_values_stay(events, values, 0, 8);
        lemma_values_stay(events, values, 9, n);
    } else {
        lemma_values_stay(events, values, 0, n);
    }
}

/// Whether every batch of rows among `events` has at most `limit` rows.
pub open spec fn batches_hold_at_most<K, E>(limit: usize, events: Seq<Event<K, E>>) -> bool {
    forall|i: int|
        0 <= i < events.len() ==> (#[trigger] events[i] matches Event::SegmentRows(Ok(rows))
            ==> rows@.len() <= limit)
}

/// A pass never holds more segment rows at a time than a batch does, however
/// many segments the catalog links.
pub proof fn law_rows_held_are_bounded<K, E>(options: CompactOptions, events: Seq<Event<K, E>>)
    requires
        pass_after(options, events) is Some,
        batches_hold_at_most(options.segment_row_batch, events),
    ensures
        pass_after(options, events)->0.phase matches CompactPhase::RepackSegments {
            segment,
            rest,
            cursor,
            exhausted,
        } ==> 1 + rest.len() <= options.segment_row_batch,
    decreases events.len(),
{
    if events.len() > 0 {
        let earlier = events.drop_last();
        assert forall|i: int| 0 <= i < earlier.len() implies (
        #[trigger] earlier[i] matches Event::SegmentRows(Ok(rows)) ==> rows@.len()
            <= options.segment_row_batch) by {
            assert(earlier[i] == events[i]);
        }
        law_rows_held_are_bounded(options, earlier);
        lemma_pass_is_wf(options, earlier);
        assert(events.last() == events[events.len() - 1]);
    }
}

} // verus!
