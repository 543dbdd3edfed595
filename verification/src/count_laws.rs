//! What a full compaction counts, and how long it can take.

use crate::catalog::SegmentRow;
use crate::full::CompactPhase;
use crate::full::Event;
use crate::full_laws::is_publication;
use crate::full_laws::law_publications_are_counted;
use crate::full_laws::lemma_pass_is_wf;
use crate::full_laws::pass_after;
use crate::full_laws::publication_count;
use crate::options::CompactOptions;
use crate::segment::SegmentEvent;
use crate::segment::is_wasteful;
use crate::segment_laws::data_page_count;
use crate::segment_laws::law_lean_segments_are_skipped;
use crate::segment_laws::law_only_wasteful_segments_are_touched;
use crate::segment_laws::law_repack_ends;
use crate::stream_laws::FinishedSegment;
use crate::stream_laws::answers_so_far;
use crate::stream_laws::batch_count;
use crate::stream_laws::ends_segment;
use crate::stream_laws::finished;
use crate::stream_laws::is_catalog;
use crate::stream_laws::law_finished_segments_come_first;
use crate::stream_laws::law_segments_are_repacked_one_by_one;
use crate::stream_laws::law_stream_ends;
use crate::stream_laws::rows_come_from;
use vstd::prelude::*;

verus! {

/// How many of `segments` were repacked.
pub open spec fn repacked_count<K, E>(
    options: CompactOptions,
    segments: Seq<FinishedSegment<K, E>>,
) -> nat
    decreases segments.len(),
{
    if segments.len() == 0 {
        0
    } else {
        repacked_count(options, segments.drop_last()) + if segments.last().outcome(
            options,
        ) is Repacked {
            1nat
        } else {
            0
        }
    }
}

/// Whether the segment's file was measured to carry more than 5% garbage.
pub open spec fn was_wasteful<K, E>(segment: FinishedSegment<K, E>) -> bool {
    &&& segment.answers.len() > 0
    &&& segment.answers[0] matches SegmentEvent::Measured(Ok(size))
    &&& is_wasteful(size, segment.row.meta.total_bytes)
}

/// How many of `segments` were measured to carry more than 5% garbage.
pub open spec fn wasteful_count<K, E>(segments: Seq<FinishedSegment<K, E>>) -> nat
    decreases segments.len(),
{
    if segments.len() == 0 {
        0
    } else {
        wasteful_count(segments.drop_last()) + if was_wasteful(segments.last()) {
            1nat
        } else {
            0
        }
    }
}

/// Every publication is that of a segment that the pass then counts as repacked,
/// and the other way round.
pub proof fn law_published_segments_are_the_repacked_ones<K, E>(
    options: CompactOptions,
    events: Seq<Event<K, E>>,
)
    requires
        pass_after(options, events) is Some,
    ensures
        publication_count(events) == repacked_count(options, finished(options, events)),
    decreases events.len(),
{
    if events.len() > 0 {
        let earlier = events.drop_last();
        law_published_segments_are_the_repacked_ones(options, earlier);
        lemma_pass_is_wf(options, earlier);
        law_segments_are_repacked_one_by_one(options, earlier);
        let state = pass_after(options, earlier)->0;
        if ends_segment(state, events.last()) {
            let segment = state.phase->segment;
            let answer = events.last()->Segment_0;
            let taken = answers_so_far(options, earlier);
            assert(taken.push(answer).drop_last() =~= taken);
            assert(finished(options, events).drop_last() =~= finished(options, earlier));
            assert(finished(options, events).last().outcome(options) == segment.after(
                answer,
            )->0.stage->Done_0);
        } else {
            assert(!is_publication(events.last()));
        }
    }
}

proof fn lemma_wasteful_segments_are_repacked<K, E>(
    options: CompactOptions,
    segments: Seq<FinishedSegment<K, E>>,
)
    requires
        forall|i: int|
            0 <= i < segments.len() ==> (#[trigger] segments[i]).is_whole_repack(options) && !(
            segments[i].outcome(options) is Failed),
    ensures
        repacked_count(options, segments) == wasteful_count(segments),
    decreases segments.len(),
{
    if segments.len() > 0 {
        let before = segments.drop_last();
        assert forall|i: int| 0 <= i < before.len() implies (
        #[trigger] before[i]).is_whole_repack(options) && !(before[i].outcome(
            options,
        ) is Failed) by {
            assert(before[i] == segments[i]);
        }
        lemma_wasteful_segments_are_repacked(options, before);
        let last = segments[segments.len() - 1];
        assert(last.is_whole_repack(options));
        law_lean_segments_are_skipped(options, last.row, last.answers);
        if last.outcome(options) is Repacked {
            law_only_wasteful_segments_are_touched(options, last.row, last.answers);
        }
    }
}

/// Unless a pass fails, the segments it counts as repacked are exactly those
/// whose files were measured to carry more than 5% garbage.
pub proof fn law_wasteful_segments_are_counted<K, E>(
    options: CompactOptions,
    events: Seq<Event<K, E>>,
)
    requires
        pass_after(options, events) is Some,
        !(pass_after(options, events)->0.settled() matches Some(Err(_))),
    ensures
        pass_after(options, events)->0.stats.segments_repacked == wasteful_count(
            finished(options, events),
        ),
        publication_count(events) == wasteful_count(finished(options, events)),
{
    law_publications_are_counted(options, events);
    law_published_segments_are_the_repacked_ones(options, events);
    law_segments_are_repacked_one_by_one(options, events);
    lemma_wasteful_segments_are_repacked(options, finished(options, events));
}

proof fn lemma_repacked_count_is_bounded<K, E>(
    options: CompactOptions,
    segments: Seq<FinishedSegment<K, E>>,
)
    ensures
        repacked_count(options, segments) <= segments.len(),
    decreases segments.len(),
{
    if segments.len() > 0 {
        lemma_repacked_count_is_bounded(options, segments.drop_last());
    }
}

/// In a catalog of at most `u32::MAX` segments every publication can be counted:
/// the pass takes whatever answers its segment.
pub proof fn law_every_publication_can_be_counted<K, E>(
    options: CompactOptions,
    keys: Seq<Seq<u8>>,
    events: Seq<Event<K, E>>,
    answer: SegmentEvent<K, E>,
)
    requires
        pass_after(options, events) is Some,
        options.segment_row_batch > 0,
        is_catalog(options.segment_row_kind, keys),
        rows_come_from(options, keys, events),
        keys.len() <= u32::MAX,
        pass_after(options, events)->0.phase is RepackSegments,
        pass_after(options, events)->0.phase->segment.is_answered_by(answer),
    ensures
        pass_after(options, events)->0.is_answered_by(Event::Segment(answer)),
{
    law_publications_are_counted(options, events);
    law_published_segments_are_the_repacked_ones(options, events);
    lemma_repacked_count_is_bounded(options, finished(options, events));
    law_finished_segments_come_first(options, keys, events);
}

/// How many answers `segments` have taken in all.
pub open spec fn answers_taken<K, E>(segments: Seq<FinishedSegment<K, E>>) -> nat
    decreases segments.len(),
{
    if segments.len() == 0 {
        0
    } else {
        answers_taken(segments.drop_last()) + segments.last().answers.len()
    }
}

/// Every answer belongs to a segment, to a batch of rows, or to the few that
/// open and close a pass.
proof fn lemma_answers_add_up<K, E>(options: CompactOptions, events: Seq<Event<K, E>>)
    requires
        pass_after(options, events) is Some,
    ensures
        ({
            let other = events.len() - batch_count(events) - answers_taken(
                finished(options, events),
            ) - answers_so_far(options, events).len();
            match pass_after(options, events)->0.phase {
                CompactPhase::EnsureUsable => other == 0,
                CompactPhase::RequireMode => other == 1,
                CompactPhase::LockWriter => other == 2,
                CompactPhase::EnsureStillUsable => other == 3,
                CompactPhase::CloseReaderAdmission => other == 4,
                CompactPhase::ClearFreePageCache => other == 5,
                CompactPhase::CountReaders => other == 6,
                CompactPhase::ReadFreeListRoot => other == 7,
                CompactPhase::DenseRepack => other == 8,
                CompactPhase::UnlockWriter { result } => other <= 10,
                CompactPhase::Done(_) => other <= 11,
                _ => other <= 9,
            }
        }),
        pass_after(options, events)->0.phase is RepackSegments || answers_so_far(
            options,
            events,
        ).len() == 0,
    decreases events.len(),
{
    if events.len() > 0 {
        let earlier = events.drop_last();
        lemma_answers_add_up(options, earlier);
        lemma_pass_is_wf(options, earlier);
        let state = pass_after(options, earlier)->0;
        if ends_segment(state, events.last()) {
            assert(finished(options, events).drop_last() =~= finished(options, earlier));
        }
    }
}

/// Whether no row among `events` links a segment of more than `limit` data
/// pages.
pub open spec fn segments_hold_at_most<K, E>(limit: nat, events: Seq<Event<K, E>>) -> bool {
    forall|i: int|
        0 <= i < events.len() ==> (#[trigger] events[i] matches Event::SegmentRows(Ok(rows))
            ==> rows_hold_at_most(limit, rows@))
}

/// Whether no row of `rows` links a segment of more than `limit` data pages.
pub open spec fn rows_hold_at_most<K>(limit: nat, rows: Seq<SegmentRow<K>>) -> bool {
    forall|i: int|
        0 <= i < rows.len() ==> data_page_count((#[trigger] rows[i]).meta.page_count) <= limit
}

proof fn lemma_segments_are_bounded<K, E>(
    options: CompactOptions,
    limit: nat,
    events: Seq<Event<K, E>>,
)
    requires
        pass_after(options, events) is Some,
        segments_hold_at_most(limit, events),
    ensures
        forall|i: int|
            0 <= i < finished(options, events).len() ==> data_page_count(
                (#[trigger] finished(options, events)[i]).row.meta.page_count,
            ) <= limit,
        pass_after(options, events)->0.phase matches CompactPhase::RepackSegments {
            segment,
            rest,
            cursor,
            exhausted,
        } ==> data_page_count(segment.row.meta.page_count) <= limit && rows_hold_at_most(
            limit,
            rest,
        ),
    decreases events.len(),
{
    if events.len() > 0 {
        let earlier = events.drop_last();
        assert forall|i: int| 0 <= i < earlier.len() implies (
        #[trigger] earlier[i] matches Event::SegmentRows(Ok(rows)) ==> rows_hold_at_most(
            limit,
            rows@,
        )) by {
            assert(earlier[i] == events[i]);
        }
        lemma_segments_are_bounded(options, limit, earlier);
        lemma_pass_is_wf(options, earlier);
        assert(events.last() == events[events.len() - 1]);
        let before = finished(options, earlier);
        assert forall|i: int| 0 <= i < finished(options, events).len() implies data_page_count(
            (#[trigger] finished(options, events)[i]).row.meta.page_count,
        ) <= limit by {
            if i < before.len() {
                assert(finished(options, events)[i] == before[i]);
            }
        }
    }
}

proof fn lemma_answers_taken_are_bounded<K, E>(
    options: CompactOptions,
    limit: nat,
    segments: Seq<FinishedSegment<K, E>>,
)
    requires
        forall|i: int|
            0 <= i < segments.len() ==> (#[trigger] segments[i]).is_whole_repack(options)
                && data_page_count(segments[i].row.meta.page_count) <= limit,
    ensures
        answers_taken(segments) <= segments.len() * (2 * limit + 7),
    decreases segments.len(),
{
    if segments.len() > 0 {
        let before = segments.drop_last();
        assert forall|i: int| 0 <= i < before.len() implies (
        #[trigger] before[i]).is_whole_repack(options) && data_page_count(
            before[i].row.meta.page_count,
        ) <= limit by {
            assert(before[i] == segments[i]);
        }
        lemma_answers_taken_are_bounded(options, limit, before);
        let last = segments[segments.len() - 1];
        assert(last.is_whole_repack(options));
        law_repack_ends(options, last.row, last.answers);
        let each = 2 * limit + 7;
        assert(segments.len() * each == before.len() * each + each) by (nonlinear_arith)
            requires
                segments.len() == before.len() + 1,
        ;
    }
}

/// A pass always ends. Over a catalog of segments of at most `limit` data pages
/// each it takes at most two answers for each data page, seven besides for each
/// segment, one batch more than there are segments, and eleven to open and
/// close.
pub proof fn law_pass_ends<K, E>(
    options: CompactOptions,
    keys: Seq<Seq<u8>>,
    limit: nat,
    events: Seq<Event<K, E>>,
)
    requires
        pass_after(options, events) is Some,
        options.segment_row_batch > 0,
        is_catalog(options.segment_row_kind, keys),
        rows_come_from(options, keys, events),
        segments_hold_at_most(limit, events),
    ensures
        events.len() <= keys.len() * (2 * limit + 7) + (keys.len() + 1) + 11,
{
    let done = finished(options, events);
    let each = 2 * limit + 7;
    lemma_answers_add_up(options, events);
    lemma_segments_are_bounded(options, limit, events);
    law_segments_are_repacked_one_by_one(options, events);
    law_stream_ends(options, keys, events);
    law_finished_segments_come_first(options, keys, events);
    lemma_answers_taken_are_bounded(options, limit, done);
    if pass_after(options, events)->0.phase is RepackSegments {
        let segment = pass_after(options, events)->0.phase->segment;
        law_repack_ends(options, segment.row, answers_so_far(options, events));
        assert((done.len() + 1) * each <= keys.len() * each) by (nonlinear_arith)
            requires
                done.len() + 1 <= keys.len(),
        ;
        assert((done.len() + 1) * each == done.len() * each + each) by (nonlinear_arith);
    } else {
        assert(done.len() * each <= keys.len() * each) by (nonlinear_arith)
            requires
                done.len() <= keys.len(),
        ;
    }
}

} // verus!
