//! What holds of the segments that a full compaction goes through.

use crate::catalog::SegmentRow;
use crate::catalog::cursor_behind;
use crate::catalog::key_lt;
use crate::catalog::law_cursor_is_the_next_key;
use crate::catalog::law_first_cursor_misses_nothing;
use crate::catalog::lemma_key_lt_asymmetric;
use crate::catalog::lemma_key_lt_irreflexive;
use crate::errors::PagedbError;
use crate::full::CompactPhase;
use crate::full::CompactState;
use crate::full::Event;
use crate::full::Request;
use crate::full_laws::lemma_pass_is_wf;
use crate::full_laws::pass_after;
use crate::options::CompactOptions;
use crate::segment::SegmentEvent;
use crate::segment::SegmentOutcome;
use crate::segment_laws::repack_after;
use crate::types::CompactStats;
use vstd::prelude::*;

verus! {

/// A segment that a pass is through with, and the answers that it took.
pub struct FinishedSegment<K, E> {
    pub row: SegmentRow<K>,
    pub answers: Seq<SegmentEvent<K, E>>,
}

impl<K, E> FinishedSegment<K, E> {
    /// How the segment's repack ended.
    pub open spec fn outcome(self, options: CompactOptions) -> SegmentOutcome<E> {
        repack_after(options, self.row, self.answers)->0.stage->Done_0
    }

    /// Whether the answers make up a whole repack of the segment.
    pub open spec fn is_whole_repack(self, options: CompactOptions) -> bool {
        &&& repack_after(options, self.row, self.answers) is Some
        &&& repack_after(options, self.row, self.answers)->0.stage is Done
    }
}

/// Whether `event` ends the repack of the segment that is at work.
pub open spec fn ends_segment<K, E>(state: CompactState<K, E>, event: Event<K, E>) -> bool {
    match (state.phase, event) {
        (
            CompactPhase::RepackSegments { segment, rest, cursor, exhausted },
            Event::Segment(answer),
        ) => segment.after(answer) is Some && segment.after(answer)->0.stage is Done,
        _ => false,
    }
}

/// The answers that the segment at work has taken by the end of `events`.
pub open spec fn answers_so_far<K, E>(
    options: CompactOptions,
    events: Seq<Event<K, E>>,
) -> Seq<SegmentEvent<K, E>>
    decreases events.len(),
{
    if events.len() == 0 {
        seq![]
    } else {
        match (pass_after(options, events.drop_last()), events.last()) {
            (Some(state), Event::Segment(answer)) => if ends_segment(state, events.last()) {
                seq![]
            } else {
                answers_so_far(options, events.drop_last()).push(answer)
            },
            _ => seq![],
        }
    }
}

/// The segments that a pass is through with by the end of `events`, in order.
pub open spec fn finished<K, E>(options: CompactOptions, events: Seq<Event<K, E>>) -> Seq<
    FinishedSegment<K, E>,
>
    decreases events.len(),
{
    if events.len() == 0 {
        seq![]
    } else {
        let before = finished(options, events.drop_last());
        match (pass_after(options, events.drop_last()), events.last()) {
            (Some(state), Event::Segment(answer)) => if ends_segment(state, events.last()) {
                before.push(
                    FinishedSegment {
                        row: state.phase->segment.row,
                        answers: answers_so_far(options, events.drop_last()).push(answer),
                    },
                )
            } else {
                before
            },
            _ => before,
        }
    }
}

/// Each segment of a pass goes through one whole repack of its own, under the
/// pass's options; the one at work is part of the way through its own. Of the
/// finished ones none has failed, unless the pass has.
pub proof fn law_segments_are_repacked_one_by_one<K, E>(
    options: CompactOptions,
    events: Seq<Event<K, E>>,
)
    requires
        pass_after(options, events) is Some,
    ensures
        forall|i: int|
            0 <= i < finished(options, events).len() ==> (#[trigger] finished(
                options,
                events,
            )[i]).is_whole_repack(options),
        !(pass_after(options, events)->0.settled() matches Some(Err(_))) ==> forall|i: int|
            0 <= i < finished(options, events).len() ==> !((#[trigger] finished(
                options,
                events,
            )[i]).outcome(options) is Failed),
        pass_after(options, events)->0.phase matches CompactPhase::RepackSegments {
            segment,
            rest,
            cursor,
            exhausted,
        } ==> repack_after(options, segment.row, answers_so_far(options, events)) == Some(segment),
    decreases events.len(),
{
    if events.len() > 0 {
        let earlier = events.drop_last();
        law_segments_are_repacked_one_by_one(options, earlier);
        lemma_pass_is_wf(options, earlier);
        let state = pass_after(options, earlier)->0;
        match (state.phase, events.last()) {
            (
                CompactPhase::RepackSegments { segment, rest, cursor, exhausted },
                Event::Segment(answer),
            ) => {
                let taken = answers_so_far(options, earlier);
                assert(taken.push(answer).drop_last() =~= taken);
                assert(repack_after(options, segment.row, taken.push(answer)) == segment.after(
                    answer,
                ));
            },
            _ => {},
        }
    }
}

/// The keys of rows.
pub open spec fn keys_of<K>(rows: Seq<SegmentRow<K>>) -> Seq<Seq<u8>> {
    Seq::new(rows.len(), |i: int| rows[i].key@)
}

/// The keys of the segments that a pass is through with, in order.
pub open spec fn finished_keys<K, E>(options: CompactOptions, events: Seq<Event<K, E>>) -> Seq<
    Seq<u8>,
> {
    Seq::new(
        finished(options, events).len(),
        |i: int| finished(options, events)[i].row.key@,
    )
}

/// Whether `keys` are the keys of a catalog's segment rows: in order, each
/// once, each with the byte of segment rows in front.
pub open spec fn is_catalog(segment_row_kind: u8, keys: Seq<Seq<u8>>) -> bool {
    &&& forall|i: int, j: int| 0 <= i < j < keys.len() ==> key_lt(#[trigger] keys[i], #[trigger] keys[j])
    &&& forall|i: int|
        0 <= i < keys.len() ==> (#[trigger] keys[i]).len() > 0 && keys[i][0] == segment_row_kind
}

/// How many keys in front come before `cursor`.
pub open spec fn keys_before(keys: Seq<Seq<u8>>, cursor: Seq<u8>) -> nat
    decreases keys.len(),
{
    if keys.len() > 0 && key_lt(keys[0], cursor) {
        1 + keys_before(keys.drop_first(), cursor)
    } else {
        0
    }
}

/// Whether `rows` are the batch that a catalog with `keys` has at `cursor`: the
/// rows from the first key that does not come before the cursor, as many as
/// `limit` and the end of the catalog allow.
pub open spec fn is_batch<K>(
    keys: Seq<Seq<u8>>,
    cursor: Seq<u8>,
    limit: usize,
    rows: Seq<SegmentRow<K>>,
) -> bool {
    let from = keys_before(keys, cursor);
    let left = keys.len() - from;
    keys_of(rows) == keys.subrange(from as int, from + if limit < left { limit as int } else { left })
}

/// Whether every batch among `events` is the one that a catalog with `keys` has
/// at the cursor that was asked for. The keys stay as they are throughout the
/// pass, as they do where every published name is text: a replacement is then
/// linked under the key of the row it replaces.
pub open spec fn rows_come_from<K, E>(
    options: CompactOptions,
    keys: Seq<Seq<u8>>,
    events: Seq<Event<K, E>>,
) -> bool
    decreases events.len(),
{
    events.len() > 0 ==> rows_come_from(options, keys, events.drop_last()) && match (
        pass_after(options, events.drop_last())->0.request(),
        events.last(),
    ) {
        (Some(Request::FetchSegmentRows { cursor }), Event::SegmentRows(Ok(rows))) => is_batch(
            keys,
            cursor,
            options.segment_row_batch,
            rows@,
        ),
        _ => true,
    }
}

/// How many of `events` answer for a batch of rows.
pub open spec fn batch_count<K, E>(events: Seq<Event<K, E>>) -> nat
    decreases events.len(),
{
    if events.len() == 0 {
        0
    } else {
        batch_count(events.drop_last()) + if events.last() is SegmentRows {
            1nat
        } else {
            0
        }
    }
}

/// The count is where the keys stop coming before the cursor.
proof fn lemma_keys_before(keys: Seq<Seq<u8>>, cursor: Seq<u8>, n: int)
    requires
        0 <= n <= keys.len(),
        forall|i: int| 0 <= i < n ==> key_lt(#[trigger] keys[i], cursor),
        n < keys.len() ==> !key_lt(keys[n], cursor),
    ensures
        keys_before(keys, cursor) == n,
    decreases n,
{
    if n > 0 {
        assert(key_lt(keys[0], cursor));
        assert forall|i: int| 0 <= i < n - 1 implies key_lt(
            #[trigger] keys.drop_first()[i],
            cursor,
        ) by {
            assert(key_lt(keys[i + 1], cursor));
        }
        lemma_keys_before(keys.drop_first(), cursor, n - 1);
    }
}

/// Behind a key of the catalog the stream resumes at the next one.
proof fn lemma_resumes_at_next_key(segment_row_kind: u8, keys: Seq<Seq<u8>>, last: int)
    requires
        is_catalog(segment_row_kind, keys),
        0 <= last < keys.len(),
    ensures
        keys_before(keys, cursor_behind(keys[last])) == last + 1,
{
    let cursor = cursor_behind(keys[last]);
    assert forall|i: int| 0 <= i < last + 1 implies key_lt(#[trigger] keys[i], cursor) by {
        law_cursor_is_the_next_key(keys[i], keys[last]);
    }
    if last + 1 < keys.len() {
        law_cursor_is_the_next_key(keys[last + 1], keys[last]);
        lemma_key_lt_asymmetric(keys[last], keys[last + 1]);
        lemma_key_lt_irreflexive(keys[last]);
    }
    lemma_keys_before(keys, cursor, last + 1);
}

/// How far a pass has come in a catalog with `keys` when it is through with the
/// segments `through` and has had `batches` batches.
spec fn is_on_course<K, E>(
    keys: Seq<Seq<u8>>,
    through: Seq<Seq<u8>>,
    batches: nat,
    state: CompactState<K, E>,
) -> bool {
    match state.phase {
        CompactPhase::FetchSegmentRows { cursor } => {
            &&& keys_before(keys, cursor) <= keys.len()
            &&& through == keys.take(keys_before(keys, cursor) as int)
            &&& batches <= keys_before(keys, cursor)
        },
        CompactPhase::RepackSegments { segment, rest, cursor, exhausted } => {
            &&& keys_before(keys, cursor) <= keys.len()
            &&& through + seq![segment.row.key@] + keys_of(rest) == keys.take(
                keys_before(keys, cursor) as int,
            )
            &&& exhausted ==> keys_before(keys, cursor) == keys.len()
            &&& batches <= keys_before(keys, cursor)
        },
        _ => match state.settled() {
            Some(result) => {
                &&& batches <= keys.len() + 1
                &&& result matches Ok(stats) ==> !stats.declined_readers_pinned ==> through == keys
            },
            None => through.len() == 0 && batches == 0,
        },
    }
}

proof fn lemma_on_course_to_next_segment<K, E>(
    keys: Seq<Seq<u8>>,
    through: Seq<Seq<u8>>,
    batches: nat,
    state: CompactState<K, E>,
    rest: Seq<SegmentRow<K>>,
    cursor: Seq<u8>,
    exhausted: bool,
)
    requires
        keys_before(keys, cursor) <= keys.len(),
        through + keys_of(rest) == keys.take(keys_before(keys, cursor) as int),
        exhausted ==> keys_before(keys, cursor) == keys.len(),
        batches <= keys_before(keys, cursor),
    ensures
        is_on_course(keys, through, batches, state.at_next_segment(rest, cursor, exhausted)),
{
    let p = keys_before(keys, cursor) as int;
    if rest.len() > 0 {
        assert(seq![rest[0].key@] + keys_of(rest.drop_first()) =~= keys_of(rest));
        assert(through + seq![rest[0].key@] + keys_of(rest.drop_first()) =~= through + keys_of(
            rest,
        ));
    } else {
        assert(through + keys_of(rest) =~= through);
        if exhausted {
            assert(keys.take(p) =~= keys);
        }
    }
}

proof fn lemma_on_course_after_rows<K, E>(
    keys: Seq<Seq<u8>>,
    through: Seq<Seq<u8>>,
    batches: nat,
    state: CompactState<K, E>,
    rows: Seq<SegmentRow<K>>,
)
    requires
        is_catalog(state.options.segment_row_kind, keys),
        state.options.segment_row_batch > 0,
        state.phase is FetchSegmentRows,
        is_on_course(keys, through, batches, state),
        is_batch(
            keys,
            state.phase->FetchSegmentRows_cursor,
            state.options.segment_row_batch,
            rows,
        ),
    ensures
        is_on_course(keys, through, batches + 1, state.with_rows(rows)),
{
    let from = keys_before(keys, state.phase->FetchSegmentRows_cursor) as int;
    assert(keys_of(rows).len() == rows.len());
    if rows.len() == 0 {
        assert(keys.take(from) =~= keys);
    } else {
        let to = from + rows.len();
        assert(keys_of(rows) == keys.subrange(from, to));
        assert(rows.last().key@ == keys_of(rows).last());
        assert(rows.last().key@ == keys[to - 1]);
        lemma_resumes_at_next_key(state.options.segment_row_kind, keys, to - 1);
        assert(through + keys_of(rows) =~= keys.take(to));
        lemma_on_course_to_next_segment(
            keys,
            through,
            batches + 1,
            state,
            rows,
            cursor_behind(rows.last().key@),
            rows.len() < state.options.segment_row_batch,
        );
    }
}

proof fn lemma_stream<K, E>(
    options: CompactOptions,
    keys: Seq<Seq<u8>>,
    events: Seq<Event<K, E>>,
)
    requires
        pass_after(options, events) is Some,
        options.segment_row_batch > 0,
        is_catalog(options.segment_row_kind, keys),
        rows_come_from(options, keys, events),
    ensures
        is_on_course(
            keys,
            finished_keys(options, events),
            batch_count(events),
            pass_after(options, events)->0,
        ),
    decreases events.len(),
{
    if events.len() > 0 {
        let earlier = events.drop_last();
        lemma_stream(options, keys, earlier);
        lemma_pass_is_wf(options, earlier);
        let state = pass_after(options, earlier)->0;
        let through = finished_keys(options, earlier);
        match (state.phase, events.last()) {
            (CompactPhase::FetchSegmentRows { cursor }, Event::SegmentRows(Ok(rows))) => {
                assert(finished_keys(options, events) =~= through);
                lemma_on_course_after_rows(keys, through, batch_count(earlier), state, rows@);
            },
            (
                CompactPhase::RepackSegments { segment, rest, cursor, exhausted },
                Event::Segment(answer),
            ) => {
                if ends_segment(state, events.last()) {
                    let now_through = finished_keys(options, events);
                    assert(now_through =~= through + seq![segment.row.key@]);
                    let batches = batch_count(earlier);
                    lemma_on_course_to_next_segment(
                        keys,
                        now_through,
                        batches,
                        state,
                        rest,
                        cursor,
                        exhausted,
                    );
                    lemma_on_course_to_next_segment(
                        keys,
                        now_through,
                        batches,
                        state.with_segment_counted(),
                        rest,
                        cursor,
                        exhausted,
                    );
                } else {
                    assert(finished_keys(options, events) =~= through);
                }
            },
            _ => {
                assert(finished_keys(options, events) =~= through);
                if keys.len() > 0 {
                    law_first_cursor_misses_nothing(options.segment_row_kind, keys[0]);
                }
                lemma_keys_before(keys, seq![options.segment_row_kind], 0);
                assert(through.len() == 0 ==> through =~= keys.take(0));
            },
        }
    }
}

proof fn lemma_front_is_prefix(
    front: Seq<Seq<u8>>,
    key: Seq<u8>,
    back: Seq<Seq<u8>>,
    keys: Seq<Seq<u8>>,
)
    requires
        front + seq![key] + back == keys,
    ensures
        front.len() < keys.len(),
        front.push(key) == keys.take(front.len() as int + 1),
{
    assert(front.push(key) =~= (front + seq![key] + back).take(front.len() as int + 1));
}

/// The segments that a pass is through with are the first ones of the catalog;
/// the one at work is the next, and so is the one that the next batch starts
/// with.
pub proof fn law_finished_segments_come_first<K, E>(
    options: CompactOptions,
    keys: Seq<Seq<u8>>,
    events: Seq<Event<K, E>>,
)
    requires
        pass_after(options, events) is Some,
        options.segment_row_batch > 0,
        is_catalog(options.segment_row_kind, keys),
        rows_come_from(options, keys, events),
    ensures
        finished(options, events).len() <= keys.len(),
        finished_keys(options, events) == keys.take(finished(options, events).len() as int),
        pass_after(options, events)->0.phase matches CompactPhase::RepackSegments {
            segment,
            rest,
            cursor,
            exhausted,
        } ==> finished(options, events).len() < keys.len() && segment.row.key@ == keys[finished(
            options,
            events,
        ).len() as int],
        pass_after(options, events)->0.phase matches CompactPhase::FetchSegmentRows { cursor }
            ==> keys_before(keys, cursor) == finished(options, events).len(),
    decreases events.len(),
{
    lemma_stream(options, keys, events);
    assert(finished_keys(options, events).len() == finished(options, events).len());
    if pass_after(options, events)->0.phase is RepackSegments {
        let phase = pass_after(options, events)->0.phase;
        let p = keys_before(keys, phase->RepackSegments_cursor) as int;
        let through = finished_keys(options, events);
        let key = phase->segment.row.key@;
        lemma_front_is_prefix(through, key, keys_of(phase->rest), keys.take(p));
        assert(through.push(key)[through.len() as int] == keys.take(p)[through.len() as int]);
    }
    if events.len() > 0 {
        let earlier = events.drop_last();
        law_finished_segments_come_first(options, keys, earlier);
        let state = pass_after(options, earlier)->0;
        if ends_segment(state, events.last()) {
            assert(finished_keys(options, events) =~= finished_keys(options, earlier).push(
                state.phase->segment.row.key@,
            ));
            assert(finished_keys(options, events) =~= keys.take(
                finished(options, events).len() as int,
            ));
        } else {
            assert(finished_keys(options, events) =~= finished_keys(options, earlier));
        }
    } else {
        assert(finished_keys(options, events) =~= keys.take(0));
    }
}

/// A pass that ends well without declining has gone through every segment of
/// the catalog, each exactly once and in order, however many batches that took
/// and whichever rows were rewritten on the way.
pub proof fn law_every_segment_is_visited_once<K, E>(
    options: CompactOptions,
    keys: Seq<Seq<u8>>,
    events: Seq<Event<K, E>>,
    stats: CompactStats,
)
    requires
        pass_after(options, events) is Some,
        pass_after(options, events)->0.settled() == Some(
            Ok::<CompactStats, PagedbError<E>>(stats),
        ),
        !stats.declined_readers_pinned,
        options.segment_row_batch > 0,
        is_catalog(options.segment_row_kind, keys),
        rows_come_from(options, keys, events),
    ensures
        finished_keys(options, events) == keys,
{
    lemma_stream(options, keys, events);
}

/// The stream of rows ends: a pass asks for at most one batch more than there
/// are segments in the catalog.
pub proof fn law_stream_ends<K, E>(
    options: CompactOptions,
    keys: Seq<Seq<u8>>,
    events: Seq<Event<K, E>>,
)
    requires
        pass_after(options, events) is Some,
        options.segment_row_batch > 0,
        is_catalog(options.segment_row_kind, keys),
        rows_come_from(options, keys, events),
    ensures
        batch_count(events) <= keys.len() + 1,
{
    lemma_stream(options, keys, events);
}

} // verus!
