//! Which files a full compaction looks at, and what its report says of them.

use crate::catalog::SegmentMeta;
use crate::catalog_laws::law_publications_leave_the_stream_alone;
use crate::catalog_laws::law_segments_are_taken_as_linked;
use crate::catalog_laws::lists_catalog;
use crate::catalog_laws::published_names_are_text;
use crate::catalog_laws::rows_come_from_catalog;
use crate::count_laws::law_wasteful_segments_are_counted;
use crate::count_laws::was_wasteful;
use crate::count_laws::wasteful_count;
use crate::errors::PagedbError;
use crate::full::CompactPhase;
use crate::full::Event;
use crate::full::Request;
use crate::full_laws::law_publications_are_counted;
use crate::full_laws::lemma_pass_is_wf;
use crate::full_laws::pass_after;
use crate::options::CompactOptions;
use crate::pass_work_laws::law_returned_report_is_exact;
use crate::pass_work_laws::law_settled_result_is_returned;
use crate::path_laws::is_live_path_of;
use crate::segment::SegmentEvent;
use crate::segment::SegmentRequest;
use crate::segment_work_laws::law_live_file_is_measured_first;
use crate::stream_laws::FinishedSegment;
use crate::stream_laws::answers_so_far;
use crate::stream_laws::finished;
use crate::stream_laws::finished_keys;
use crate::stream_laws::law_every_segment_is_visited_once;
use crate::stream_laws::law_segments_are_repacked_one_by_one;
use crate::types::CompactStats;
use vstd::prelude::*;

verus! {

/// A file that was measured, and the answer.
pub struct MeasuredFile<E> {
    pub path: Seq<char>,
    pub size: Result<u64, PagedbError<E>>,
}

/// The files that were asked for and measured, in order.
pub open spec fn files_measured<K, E>(options: CompactOptions, events: Seq<Event<K, E>>) -> Seq<
    MeasuredFile<E>,
>
    decreases events.len(),
{
    if events.len() == 0 {
        seq![]
    } else {
        let before = files_measured(options, events.drop_last());
        match (pass_after(options, events.drop_last())->0.request(), events.last()) {
            (
                Some(Request::Segment(SegmentRequest::Measure { path, mode })),
                Event::Segment(SegmentEvent::Measured(size)),
            ) => before.push(MeasuredFile { path, size }),
            _ => before,
        }
    }
}

/// Whether `file` is the live file of the segment, with the answer that the
/// segment's repack began with.
pub open spec fn is_file_of<K, E>(file: MeasuredFile<E>, segment: FinishedSegment<K, E>) -> bool {
    &&& is_live_path_of(file.path, segment.row.meta.segment_id)
    &&& segment.answers.len() > 0
    &&& segment.answers[0] == SegmentEvent::<K, E>::Measured(file.size)
}

proof fn lemma_files_measured<K, E>(options: CompactOptions, events: Seq<Event<K, E>>)
    requires
        pass_after(options, events) is Some,
    ensures
        ({
            let files = files_measured(options, events);
            let done = finished(options, events);
            let answers = answers_so_far(options, events);
            &&& files.len() >= done.len()
            &&& forall|i: int| 0 <= i < done.len() ==> is_file_of(files[i], #[trigger] done[i])
            &&& match pass_after(options, events)->0.phase {
                CompactPhase::RepackSegments { segment, rest, cursor, exhausted } => {
                    &&& answers.len() == 0 ==> files.len() == done.len()
                    &&& answers.len() > 0 ==> {
                        &&& files.len() == done.len() + 1
                        &&& is_file_of(files.last(), FinishedSegment { row: segment.row, answers })
                    }
                },
                _ => files.len() == done.len() && answers.len() == 0,
            }
        }),
    decreases events.len(),
{
    if events.len() > 0 {
        let earlier = events.drop_last();
        lemma_files_measured(options, earlier);
        lemma_pass_is_wf(options, earlier);
        law_segments_are_repacked_one_by_one(options, earlier);
        let state = pass_after(options, earlier)->0;
        let files = files_measured(options, earlier);
        let done = finished(options, earlier);
        match (state.phase, events.last()) {
            (
                CompactPhase::RepackSegments { segment, rest, cursor, exhausted },
                Event::Segment(answer),
            ) => {
                let taken = answers_so_far(options, earlier);
                let all = taken.push(answer);
                law_live_file_is_measured_first(options, segment.row, taken);
                if taken.len() > 0 {
                    assert(all[0] == taken[0]);
                }
                let now = FinishedSegment { row: segment.row, answers: all };
                let files_now = files_measured(options, events);
                assert(is_file_of(files_now.last(), now));
                assert(forall|i: int| 0 <= i < done.len() ==> files_now[i] == files[i]);
                let done_now = finished(options, events);
                assert forall|i: int| 0 <= i < done_now.len() implies is_file_of(
                    files_now[i],
                    #[trigger] done_now[i],
                ) by {
                    if i < done.len() {
                        assert(done_now[i] == done[i]);
                    }
                }
            },
            _ => {},
        }
    }
}

/// A pass that returns a report without declining has measured the live file of
/// every segment that the catalog linked when the pass began: each once, in the
/// order of the keys, and no other file.
pub proof fn law_every_live_file_is_measured_once<K, E>(
    options: CompactOptions,
    catalog: Map<Seq<u8>, SegmentMeta<K>>,
    keys: Seq<Seq<u8>>,
    events: Seq<Event<K, E>>,
    stats: CompactStats,
)
    requires
        pass_after(options, events) is Some,
        pass_after(options, events)->0.outcome() == Some(
            Ok::<CompactStats, PagedbError<E>>(stats),
        ),
        !stats.declined_readers_pinned,
        options.segment_row_batch > 0,
        lists_catalog(options.segment_row_kind, keys, catalog),
        published_names_are_text(options, events),
        rows_come_from_catalog(options, catalog, events),
    ensures
        files_measured(options, events).len() == keys.len(),
        forall|i: int|
            0 <= i < keys.len() ==> is_live_path_of(
                files_measured(options, events)[i].path,
                catalog[#[trigger] keys[i]].segment_id,
            ),
{
    law_settled_result_is_returned(options, events);
    law_publications_leave_the_stream_alone(options, catalog, keys, events);
    law_every_segment_is_visited_once(options, keys, events, stats);
    law_segments_are_taken_as_linked(options, catalog, keys, events);
    lemma_files_measured(options, events);
    let done = finished(options, events);
    assert(finished_keys(options, events).len() == done.len());
    assert forall|i: int| 0 <= i < keys.len() implies is_live_path_of(
        files_measured(options, events)[i].path,
        catalog[#[trigger] keys[i]].segment_id,
    ) by {
        assert(finished_keys(options, events)[i] == keys[i]);
        assert(done[i].row.key@ == keys[i]);
    }
}

/// The segments in a returned report are as many as were measured to be more
/// than a twentieth larger than the bytes that count in them.
pub proof fn law_returned_count_is_that_of_the_wasteful<K, E>(
    options: CompactOptions,
    events: Seq<Event<K, E>>,
    stats: CompactStats,
)
    requires
        pass_after(options, events) is Some,
        pass_after(options, events)->0.outcome() == Some(
            Ok::<CompactStats, PagedbError<E>>(stats),
        ),
        !stats.declined_readers_pinned,
    ensures
        stats.segments_repacked == wasteful_count(finished(options, events)),
        forall|i: int|
            0 <= i < finished(options, events).len() ==> {
                let segment = #[trigger] finished(options, events)[i];
                let total_bytes = segment.row.meta.total_bytes;
                was_wasteful(segment) <==> {
                    &&& files_measured(options, events)[i].size matches Ok(size)
                    &&& 100 * (size - total_bytes) > 5 * total_bytes
                }
            },
{
    law_returned_report_is_exact(options, events, stats);
    law_settled_result_is_returned(options, events);
    law_publications_are_counted(options, events);
    law_wasteful_segments_are_counted(options, events);
    lemma_files_measured(options, events);
    assert forall|i: int| 0 <= i < finished(options, events).len() implies {
        let segment = #[trigger] finished(options, events)[i];
        let total_bytes = segment.row.meta.total_bytes;
        was_wasteful(segment) <==> {
            &&& files_measured(options, events)[i].size matches Ok(size)
            &&& 100 * (size - total_bytes) > 5 * total_bytes
        }
    } by {
        assert(is_file_of(files_measured(options, events)[i], finished(options, events)[i]));
    }
}

} // verus!
