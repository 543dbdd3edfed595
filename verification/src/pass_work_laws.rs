//! What work a full compaction asks for and what result it returns, told from
//! the answers it has had.

use crate::catalog::SegmentRow;
use crate::catalog::law_valid_keys;
use crate::errors::PagedbError;
use crate::full::Action;
use crate::full::CompactPhase;
use crate::full::DbMode;
use crate::full::Event;
use crate::full::ModeCapability;
use crate::full::Request;
use crate::full_laws::dense_gain;
use crate::full_laws::error_brought;
use crate::full_laws::is_missing_page;
use crate::full_laws::is_release;
use crate::full_laws::law_opening_is_asked_once;
use crate::full_laws::law_publications_are_counted;
use crate::full_laws::law_report_is_exact;
use crate::full_laws::lemma_pass_is_wf;
use crate::full_laws::pass_after;
use crate::full_laws::publication_count;
use crate::full_laws::working_answers;
use crate::options::CompactOptions;
use crate::segment::SegmentEvent;
use crate::segment::SegmentOutcome;
use crate::segment::SegmentStage;
use crate::segment_laws::law_row_is_kept;
use crate::segment_laws::repack_after;
use crate::types::CompactStats;
use vstd::prelude::*;

verus! {

/// An action asks for exactly what stands in it.
pub proof fn law_action_asks_for_what_it_holds<'a, K>(action: Action<'a, K>)
    ensures
        match action {
            Action::EnsureUsable => action@ == Request::<K>::EnsureUsable,
            Action::RequireMode { operation, mode, capability } => action@
                == (Request::<K>::RequireMode { operation: operation@, mode, capability }),
            Action::LockWriter => action@ == Request::<K>::LockWriter,
            Action::CloseReaderAdmission => action@ == Request::<K>::CloseReaderAdmission,
            Action::ClearFreePageCache => action@ == Request::<K>::ClearFreePageCache,
            Action::CountReaders => action@ == Request::<K>::CountReaders,
            Action::ReadFreeListRoot => action@ == Request::<K>::ReadFreeListRoot,
            Action::DenseRepack => action@ == Request::<K>::DenseRepack,
            Action::FetchSegmentRows { cursor } => action@ == (Request::<K>::FetchSegmentRows {
                cursor: cursor@,
            }),
            Action::Segment(work) => action@ == Request::Segment(work@),
            Action::ReopenReaderAdmission => action@ == Request::<K>::ReopenReaderAdmission,
            Action::UnlockWriter => action@ == Request::<K>::UnlockWriter,
        },
{
}

/// Whatever work is asked for, every answer to that work is taken, good or bad
/// and whatever it brings; and nothing else is. The one exception is one
/// publication more than the report can count.
pub proof fn law_every_answer_is_taken<K, E>(
    options: CompactOptions,
    events: Seq<Event<K, E>>,
    event: Event<K, E>,
)
    requires
        pass_after(options, events) is Some,
    ensures
        pass_after(options, events)->0.after(event) is Some <==> {
            let request = pass_after(options, events)->0.request();
            &&& request is Some
            &&& match event {
                Event::Usable(_) => request->0 is EnsureUsable,
                Event::ModeAllowed(_) => request->0 is RequireMode,
                Event::WriterLocked => request->0 is LockWriter,
                Event::ReaderAdmissionClosed => request->0 is CloseReaderAdmission,
                Event::FreePageCacheCleared => request->0 is ClearFreePageCache,
                Event::ReadersCounted(_) => request->0 is CountReaders,
                Event::FreeListRoot(_) => request->0 is ReadFreeListRoot,
                Event::DenseRepacked(_) => request->0 is DenseRepack,
                Event::SegmentRows(_) => request->0 is FetchSegmentRows,
                Event::Segment(answer) => request->0 is Segment && match answer {
                    SegmentEvent::Measured(_) => request->0->Segment_0 is Measure,
                    SegmentEvent::ReaderOpened(_) => request->0->Segment_0 is OpenReader,
                    SegmentEvent::StagingDirMade(_) => request->0->Segment_0 is MakeStagingDir,
                    SegmentEvent::SegmentIdDrawn(_) => request->0->Segment_0 is DrawSegmentId,
                    SegmentEvent::WriterCreated(_) => request->0->Segment_0 is CreateWriter,
                    SegmentEvent::PageRead(_) => request->0->Segment_0 is ReadPage,
                    SegmentEvent::PageAppended(_) => request->0->Segment_0 is AppendPage,
                    SegmentEvent::Sealed(_) => request->0->Segment_0 is Seal,
                    SegmentEvent::Replaced(Ok(_)) => request->0->Segment_0 is Replace
                        && publication_count(events) < u32::MAX,
                    SegmentEvent::Replaced(Err(_)) => request->0->Segment_0 is Replace,
                },
                Event::ReaderAdmissionReopened => request->0 is ReopenReaderAdmission,
                Event::WriterUnlocked => request->0 is UnlockWriter,
            }
        },
{
    lemma_pass_is_wf(options, events);
    law_publications_are_counted(options, events);
}

/// A pass opens with these requests, each behind a good answer to the one
/// before: whether the store is usable, whether its mode allows maintenance, the
/// writer lock, whether the store is usable still, closed reader admission, an
/// empty cache of free pages, the number of readers.
pub proof fn law_opening_is_asked_in_order<K, E>(
    options: CompactOptions,
    events: Seq<Event<K, E>>,
)
    requires
        pass_after(options, events) is Some,
    ensures
        ({
            let request = pass_after(options, events)->0.request();
            if events.len() == 0 {
                request == Some(Request::<K>::EnsureUsable)
            } else {
                match events.last() {
                    Event::Usable(Ok(_)) => if events.len() == 1 {
                        request == Some(
                            Request::<K>::RequireMode {
                                operation: "compaction"@,
                                mode: DbMode::Standalone,
                                capability: ModeCapability::StoreMaintenance,
                            },
                        )
                    } else {
                        events.len() == 4 && request == Some(Request::<K>::CloseReaderAdmission)
                    },
                    Event::ModeAllowed(Ok(_)) => request == Some(Request::<K>::LockWriter),
                    Event::WriterLocked => request == Some(Request::<K>::EnsureUsable),
                    Event::ReaderAdmissionClosed => request == Some(
                        Request::<K>::ClearFreePageCache,
                    ),
                    Event::FreePageCacheCleared => request == Some(Request::<K>::CountReaders),
                    _ => true,
                }
            }
        }),
{
    if events.len() > 0 {
        lemma_place_in_opening(options, events.drop_last());
    }
}

proof fn lemma_place_in_opening<K, E>(options: CompactOptions, events: Seq<Event<K, E>>)
    requires
        pass_after(options, events) is Some,
    ensures
        match pass_after(options, events)->0.phase {
            CompactPhase::EnsureUsable => events.len() == 0,
            CompactPhase::RequireMode => events.len() == 1,
            CompactPhase::LockWriter => events.len() == 2,
            CompactPhase::EnsureStillUsable => events.len() == 3,
            _ => events.len() > 0,
        },
    decreases events.len(),
{
    if events.len() > 0 {
        lemma_place_in_opening(options, events.drop_last());
    }
}

/// Under a reader nothing but giving back is asked for. Without one the root of
/// the free list is; where the list is not empty the trees are repacked, and then
/// or otherwise the segment rows are asked for from their start, which is the
/// kind byte of their keys.
pub proof fn law_readers_and_free_list_decide<K, E>(
    options: CompactOptions,
    events: Seq<Event<K, E>>,
)
    requires
        pass_after(options, events) is Some,
        events.len() > 0,
    ensures
        ({
            let request = pass_after(options, events)->0.request();
            let first_rows = Some(
                Request::<K>::FetchSegmentRows { cursor: seq![options.segment_row_kind] },
            );
            match events.last() {
                Event::ReadersCounted(readers) => request == if readers == 0 {
                    Some(Request::<K>::ReadFreeListRoot)
                } else {
                    Some(Request::<K>::ReopenReaderAdmission)
                },
                Event::FreeListRoot(root) => request == if root == 0 {
                    first_rows
                } else {
                    Some(Request::<K>::DenseRepack)
                },
                Event::DenseRepacked(Ok(_)) => request == first_rows,
                _ => true,
            }
        }),
{
    lemma_pass_is_wf(options, events.drop_last());
}

/// The batch of rows that came last; empty where none came.
pub open spec fn batch_at_hand<K, E>(events: Seq<Event<K, E>>) -> Seq<SegmentRow<K>>
    decreases events.len(),
{
    if events.len() == 0 {
        seq![]
    } else {
        match events.last() {
            Event::SegmentRows(Ok(rows)) => rows@,
            _ => batch_at_hand(events.drop_last()),
        }
    }
}

/// How many rows of the batch at hand are worked off, and the answers that the
/// next one has had.
pub open spec fn place_in_batch<K, E>(options: CompactOptions, events: Seq<Event<K, E>>) -> (
    int,
    Seq<SegmentEvent<K, E>>,
)
    decreases events.len(),
{
    if events.len() == 0 {
        (0, seq![])
    } else {
        match events.last() {
            Event::Segment(answer) => {
                let (at, before) = place_in_batch(options, events.drop_last());
                let answers = before.push(answer);
                if repack_after(options, batch_at_hand(events)[at], answers)->0.stage is Done {
                    (at + 1, seq![])
                } else {
                    (at, answers)
                }
            },
            _ => (0, seq![]),
        }
    }
}

/// The cursor of the batch behind the one at hand.
pub open spec fn next_cursor<K>(segment_row_kind: u8, batch: Seq<SegmentRow<K>>) -> Seq<u8> {
    if batch.len() == 0 {
        seq![segment_row_kind]
    } else {
        batch.last().key@ + seq![0u8]
    }
}

proof fn lemma_place_in_batch<K, E>(options: CompactOptions, events: Seq<Event<K, E>>)
    requires
        pass_after(options, events) is Some,
    ensures
        ({
            let state = pass_after(options, events)->0;
            let batch = batch_at_hand(events);
            let (at, answers) = place_in_batch(options, events);
            match state.phase {
                CompactPhase::FetchSegmentRows { cursor } => {
                    &&& cursor == next_cursor(options.segment_row_kind, batch)
                    &&& batch.len() == 0 || at == batch.len()
                },
                CompactPhase::RepackSegments { segment, rest, cursor, exhausted } => {
                    &&& 0 <= at < batch.len()
                    &&& repack_after(options, batch[at], answers) == Some(segment)
                    &&& rest == batch.skip(at + 1)
                    &&& cursor == next_cursor(options.segment_row_kind, batch)
                    &&& exhausted == (batch.len() < options.segment_row_batch)
                },
                _ => state.settled() is Some || batch.len() == 0,
            }
        }),
    decreases events.len(),
{
    if events.len() > 0 {
        let earlier = events.drop_last();
        lemma_place_in_batch(options, earlier);
        lemma_pass_is_wf(options, earlier);
        let state = pass_after(options, earlier)->0;
        let batch = batch_at_hand(events);
        match (state.phase, events.last()) {
            (CompactPhase::FetchSegmentRows { cursor }, Event::SegmentRows(Ok(rows))) => {
                assert(batch == rows@);
                if rows@.len() > 0 {
                    assert(rows@.drop_first() =~= batch.skip(1));
                    assert(rows@.last().key@.push(0u8) =~= rows@.last().key@ + seq![0u8]);
                }
            },
            (
                CompactPhase::RepackSegments { segment, rest, cursor, exhausted },
                Event::Segment(answer),
            ) => {
                let (at, before) = place_in_batch(options, earlier);
                let answers = before.push(answer);
                assert(answers.drop_last() =~= before);
                assert(repack_after(options, batch[at], answers) == segment.after(answer));
                if rest.len() > 0 {
                    assert(rest[0] == batch[at + 1]);
                    assert(rest.drop_first() =~= batch.skip(at + 2));
                }
            },
            _ => {},
        }
    }
}

/// Each batch of rows is asked for from where the one before it ended: the first
/// from the kind byte alone, each later one from the whole last key, followed by
/// a zero byte.
pub proof fn law_batches_follow_on<K, E>(
    options: CompactOptions,
    events: Seq<Event<K, E>>,
    cursor: Seq<u8>,
)
    requires
        pass_after(options, events) is Some,
        pass_after(options, events)->0.request() == Some(
            Request::<K>::FetchSegmentRows { cursor },
        ),
    ensures
        ({
            let batch = batch_at_hand(events);
            if batch.len() == 0 {
                cursor == seq![options.segment_row_kind]
            } else {
                &&& cursor.len() == batch.last().key@.len() + 1
                &&& cursor.drop_last() == batch.last().key@
                &&& cursor.last() == 0
                &&& batch.len() >= options.segment_row_batch
            }
        }),
{
    lemma_pass_is_wf(options, events);
    lemma_place_in_batch(options, events);
    let batch = batch_at_hand(events);
    if batch.len() > 0 {
        assert(cursor.drop_last() =~= batch.last().key@);
        lemma_more_to_come(options, events);
    }
}

proof fn lemma_more_to_come<K, E>(options: CompactOptions, events: Seq<Event<K, E>>)
    requires
        pass_after(options, events) is Some,
        pass_after(options, events)->0.phase is FetchSegmentRows,
        batch_at_hand(events).len() > 0,
    ensures
        batch_at_hand(events).len() >= options.segment_row_batch,
{
    lemma_place_in_batch(options, events.drop_last());
    lemma_pass_is_wf(options, events.drop_last());
}

/// What is asked for once a batch is worked off up to `at`: the next row's
/// repack from its start; behind the last row of a full batch the next batch, and
/// behind the last row of a shorter one the end.
pub open spec fn work_behind<K, E>(
    options: CompactOptions,
    batch: Seq<SegmentRow<K>>,
    at: int,
) -> Option<Request<K>> {
    if at < batch.len() {
        Some(
            Request::Segment(
                repack_after::<K, E>(options, batch[at], seq![])->0.request()->0,
            ),
        )
    } else if 0 < batch.len() && batch.len() >= options.segment_row_batch {
        Some(Request::FetchSegmentRows { cursor: batch.last().key@ + seq![0u8] })
    } else {
        Some(Request::ReopenReaderAdmission)
    }
}

/// The rows of a batch are worked off one by one, in order, each by a repack of
/// its own that gets the answers and names the work. A failed repack ends the
/// work.
pub proof fn law_rows_are_worked_off_in_turn<K, E>(
    options: CompactOptions,
    events: Seq<Event<K, E>>,
)
    requires
        pass_after(options, events) is Some,
        events.len() > 0,
    ensures
        ({
            let request = pass_after(options, events)->0.request();
            let batch = batch_at_hand(events);
            match events.last() {
                Event::SegmentRows(Ok(rows)) => request == work_behind::<K, E>(options, rows@, 0),
                Event::Segment(answer) => {
                    let (at, before) = place_in_batch(options, events.drop_last());
                    let segment = repack_after(options, batch[at], before.push(answer));
                    &&& 0 <= at < batch.len()
                    &&& segment is Some
                    &&& match segment->0.stage {
                        SegmentStage::Done(SegmentOutcome::Failed(_)) => request == Some(
                            Request::<K>::ReopenReaderAdmission,
                        ),
                        SegmentStage::Done(_) => request == work_behind::<K, E>(
                            options,
                            batch,
                            at + 1,
                        ),
                        _ => {
                            &&& segment->0.request() is Some
                            &&& request == Some(Request::Segment(segment->0.request()->0))
                        },
                    }
                },
                _ => true,
            }
        }),
{
    let earlier = events.drop_last();
    lemma_pass_is_wf(options, earlier);
    lemma_place_in_batch(options, earlier);
    let state = pass_after(options, earlier)->0;
    let batch = batch_at_hand(events);
    match (state.phase, events.last()) {
        (CompactPhase::FetchSegmentRows { cursor }, Event::SegmentRows(Ok(rows))) => {
            if rows@.len() > 0 {
                assert(rows@.last().key@.push(0u8) =~= rows@.last().key@ + seq![0u8]);
            }
        },
        (
            CompactPhase::RepackSegments { segment, rest, cursor, exhausted },
            Event::Segment(answer),
        ) => {
            let (at, before) = place_in_batch(options, earlier);
            assert(before.push(answer).drop_last() =~= before);
            assert(repack_after(options, batch[at], before.push(answer)) == segment.after(answer));
            if rest.len() > 0 {
                assert(rest[0] == batch[at + 1]);
            }
        },
        _ => {},
    }
}

/// What a pass has taken it gives back, in the opposite order, before it ends:
/// readers are let in again, then the lock is given up. A pass that fails before
/// it has taken either ends at once, and one that fails with the lock alone gives
/// up the lock.
pub proof fn law_taken_is_given_back<K, E>(options: CompactOptions, events: Seq<Event<K, E>>)
    requires
        pass_after(options, events) is Some,
        events.len() > 0,
    ensures
        ({
            let request = pass_after(options, events)->0.request();
            match events.last() {
                Event::Usable(Err(_)) => if events.len() == 1 {
                    request is None
                } else {
                    events.len() == 4 && request == Some(Request::<K>::UnlockWriter)
                },
                Event::ModeAllowed(Err(_)) => request is None,
                Event::DenseRepacked(Err(_)) => request == Some(
                    Request::<K>::ReopenReaderAdmission,
                ),
                Event::SegmentRows(Err(_)) => request == Some(
                    Request::<K>::ReopenReaderAdmission,
                ),
                Event::ReaderAdmissionReopened => request == Some(Request::<K>::UnlockWriter),
                Event::WriterUnlocked => request is None,
                _ => true,
            }
        }),
{
    lemma_place_in_opening(options, events.drop_last());
}

/// The result that is returned is the result that the pass came to: it is handed
/// out once no work is left, and not before.
pub proof fn law_settled_result_is_returned<K, E>(
    options: CompactOptions,
    events: Seq<Event<K, E>>,
)
    requires
        pass_after(options, events) is Some,
    ensures
        pass_after(options, events)->0.outcome() is Some <==> pass_after(
            options,
            events,
        )->0.request() is None,
        pass_after(options, events)->0.outcome() is Some ==> pass_after(
            options,
            events,
        )->0.outcome() == pass_after(options, events)->0.settled(),
{
    lemma_pass_is_wf(options, events);
}

/// Whether the last answer of `working` is the size of a segment that is due for
/// a repack and whose row's key is not the kind byte, the realm and a name.
pub open spec fn ends_at_malformed_key<K, E>(
    options: CompactOptions,
    working: Seq<Event<K, E>>,
) -> bool {
    let row = batch_at_hand(working)[place_in_batch(options, working.drop_last()).0];
    &&& working.last() matches Event::Segment(SegmentEvent::Measured(Ok(size)))
    &&& 100 * (size - row.meta.total_bytes) > 5 * row.meta.total_bytes
    &&& !(row.key@.len() >= 17 && row.key@[0] == options.segment_row_kind && row.key@.subrange(
        1,
        17,
    ) == row.meta.realm_id@)
}

/// The result of a pass whose answers up to the deciding one are `working`.
pub open spec fn result_of<K, E>(
    options: CompactOptions,
    working: Seq<Event<K, E>>,
) -> Result<CompactStats, PagedbError<E>> {
    if error_brought(working.last()) is Some && !is_missing_page(working.last()) {
        Err(error_brought(working.last())->0)
    } else if ends_at_malformed_key(options, working) {
        Err(PagedbError::MalformedSegmentKey)
    } else if working.last() is ReadersCounted {
        Ok(
            CompactStats {
                main_db_pages_reclaimed: 0,
                segments_repacked: 0,
                bytes_truncated: 0,
                declined_readers_pinned: true,
            },
        )
    } else {
        Ok(
            CompactStats {
                main_db_pages_reclaimed: dense_gain(working).pages_reclaimed,
                segments_repacked: publication_count(working) as u32,
                bytes_truncated: dense_gain(working).bytes_truncated,
                declined_readers_pinned: false,
            },
        )
    }
}

proof fn lemma_malformed_key<K, E>(options: CompactOptions, events: Seq<Event<K, E>>)
    requires
        pass_after(options, events) is Some,
        events.len() > 0,
        events.last() matches Event::Segment(SegmentEvent::Measured(Ok(_))),
    ensures
        ends_at_malformed_key(options, events) <==> pass_after(options, events)->0.settled()
            == Some(Err::<CompactStats, PagedbError<E>>(PagedbError::MalformedSegmentKey)),
        pass_after(options, events)->0.settled() matches Some(Err(e)) ==> e is MalformedSegmentKey,
{
    let earlier = events.drop_last();
    lemma_pass_is_wf(options, earlier);
    lemma_place_in_batch(options, earlier);
    let (at, before) = place_in_batch(options, earlier);
    let row = batch_at_hand(events)[at];
    law_row_is_kept(options, row, before);
    law_valid_keys(options.segment_row_kind, row.meta.realm_id, row.key@);
}

proof fn lemma_result<K, E>(options: CompactOptions, events: Seq<Event<K, E>>)
    requires
        pass_after(options, events) is Some,
        pass_after(options, events)->0.settled() is Some,
    ensures
        working_answers(events).len() > 0,
        pass_after(options, events)->0.settled() == Some(
            result_of(options, working_answers(events)),
        ),
    decreases events.len(),
{
    let earlier = events.drop_last();
    lemma_pass_is_wf(options, earlier);
    if is_release(events.last()) {
        lemma_result(options, earlier);
    } else {
        assert(working_answers(events) == events);
        if events.last() matches Event::Segment(SegmentEvent::Measured(Ok(_))) {
            lemma_malformed_key(options, events);
        }
        match pass_after(options, events)->0.settled()->0 {
            Ok(stats) => {
                law_report_is_exact(options, events, stats);
                if events.last() is ReadersCounted {
                    law_opening_is_asked_once(options, events, events.len() - 1);
                }
            },
            Err(e) => {},
        }
    }
}

/// The result of a pass, told from its answers: the error that the deciding
/// answer brought; a malformed key, where the deciding answer is the size of a
/// segment that is due for a repack under such a key; a report that it declined,
/// where that answer is a number of readers; and otherwise a report of what the
/// dense repack gained and of how many replacements were published.
pub proof fn law_result_is_told_by_the_answers<K, E>(
    options: CompactOptions,
    events: Seq<Event<K, E>>,
)
    requires
        pass_after(options, events) is Some,
    ensures
        pass_after(options, events)->0.outcome() == if pass_after(
            options,
            events,
        )->0.request() is None {
            Some(result_of(options, working_answers(events)))
        } else {
            None
        },
{
    lemma_pass_is_wf(options, events);
    if pass_after(options, events)->0.request() is None {
        lemma_result(options, events);
    }
}

/// The report that is returned.
///
/// Where a reader was counted it says that the pass declined, and every count is
/// zero. Otherwise it says that the pass did not decline; the pages and bytes in
/// it are those that the dense repack reported, and zero where none was asked
/// for, whether or not segments were repacked; and the segments in it are as many
/// as replacements were published.
pub proof fn law_returned_report_is_exact<K, E>(
    options: CompactOptions,
    events: Seq<Event<K, E>>,
    stats: CompactStats,
)
    requires
        pass_after(options, events) is Some,
        pass_after(options, events)->0.outcome() == Some(
            Ok::<CompactStats, PagedbError<E>>(stats),
        ),
    ensures
        events.len() > 6,
        events[6] is ReadersCounted,
        if events[6]->ReadersCounted_0 > 0 {
            &&& stats.declined_readers_pinned
            &&& stats.main_db_pages_reclaimed == 0
            &&& stats.bytes_truncated == 0
            &&& stats.segments_repacked == 0
        } else {
            &&& !stats.declined_readers_pinned
            &&& stats.segments_repacked == publication_count(events)
            &&& events.len() > 8
            &&& events[7] is FreeListRoot
            &&& if events[7]->FreeListRoot_0 == 0 {
                stats.main_db_pages_reclaimed == 0 && stats.bytes_truncated == 0
            } else {
                &&& events[8] matches Event::DenseRepacked(Ok(gained))
                &&& stats.main_db_pages_reclaimed == gained.pages_reclaimed
                &&& stats.bytes_truncated == gained.bytes_truncated
            }
        },
{
    law_settled_result_is_returned(options, events);
    law_report_is_exact(options, events, stats);
    lemma_working_is_front(events);
    let working = working_answers(events);
    assert(forall|i: int| 0 <= i < working.len() ==> working[i] == events[i]);
    lemma_ends_with_release(options, events);
}

proof fn lemma_working_is_front<K, E>(events: Seq<Event<K, E>>)
    ensures
        working_answers(events).len() <= events.len(),
        working_answers(events) == events.take(working_answers(events).len() as int),
    decreases events.len(),
{
    let n = working_answers(events).len() as int;
    if events.len() > 0 && is_release(events.last()) {
        lemma_working_is_front(events.drop_last());
        assert(events.drop_last().take(n) =~= events.take(n));
    } else {
        assert(events.take(n) =~= events);
    }
}

proof fn lemma_ends_with_release<K, E>(options: CompactOptions, events: Seq<Event<K, E>>)
    requires
        pass_after(options, events) is Some,
        pass_after(options, events)->0.phase is Done,
        pass_after(options, events)->0.settled() matches Some(Ok(_)),
    ensures
        events.len() > working_answers(events).len(),
{
    assert(events.len() > 0);
    assert(is_release(events.last()));
    lemma_working_is_front(events.drop_last());
}

} // verus!
