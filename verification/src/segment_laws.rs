//! What holds of every repack of a segment, from its first answer to its last.

use crate::catalog::SegmentMeta;
use crate::catalog::SegmentRow;
use crate::catalog::name_in_key;
use crate::catalog::segment_key;
use crate::errors::PagedbError;
use crate::options::CompactOptions;
use crate::segment::SegmentEvent;
use crate::segment::SegmentOutcome;
use crate::segment::SegmentRequest;
use crate::segment::SegmentStage;
use crate::segment::SegmentState;
use crate::segment::is_wasteful;
use crate::text::text_in;
use vstd::prelude::*;
use vstd::utf8::decode_utf8_encode_utf8;
use vstd::utf8::encode_utf8;
use vstd::utf8::valid_utf8;

verus! {

/// The state that the answers `events` lead to from `start`, or `None` where
/// one of them answers nothing that was asked.
pub open spec fn run<K, E>(start: SegmentState<K, E>, events: Seq<SegmentEvent<K, E>>) -> Option<
    SegmentState<K, E>,
>
    decreases events.len(),
{
    if events.len() == 0 {
        Some(start)
    } else {
        match run(start, events.drop_last()) {
            Some(state) => state.after(events.last()),
            None => None,
        }
    }
}

/// The repack of `row` after the answers `events`.
pub open spec fn repack_after<K, E>(
    options: CompactOptions,
    row: SegmentRow<K>,
    events: Seq<SegmentEvent<K, E>>,
) -> Option<SegmentState<K, E>> {
    run(SegmentState::initial(options, row), events)
}

/// The work that the last of `events` answers.
pub open spec fn last_request<K, E>(
    start: SegmentState<K, E>,
    events: Seq<SegmentEvent<K, E>>,
) -> Option<SegmentRequest<K>> {
    match run(start, events.drop_last()) {
        Some(state) => state.request(),
        None => None,
    }
}

/// The ids of the pages that were asked for and answered, in order.
pub open spec fn pages_asked<K, E>(
    start: SegmentState<K, E>,
    events: Seq<SegmentEvent<K, E>>,
) -> Seq<u64>
    decreases events.len(),
{
    if events.len() == 0 {
        seq![]
    } else {
        let before = pages_asked(start, events.drop_last());
        match last_request(start, events) {
            Some(SegmentRequest::ReadPage { page_id }) => before.push(page_id),
            _ => before,
        }
    }
}

/// The contents of the pages that could be read, in order.
pub open spec fn pages_found<K, E>(events: Seq<SegmentEvent<K, E>>) -> Seq<Seq<u8>>
    decreases events.len(),
{
    if events.len() == 0 {
        seq![]
    } else {
        let before = pages_found(events.drop_last());
        match events.last() {
            SegmentEvent::PageRead(Ok(page)) => before.push(page@),
            _ => before,
        }
    }
}

/// The contents of the pages that went into the replacement, in order.
pub open spec fn pages_copied<K, E>(
    start: SegmentState<K, E>,
    events: Seq<SegmentEvent<K, E>>,
) -> Seq<Seq<u8>>
    decreases events.len(),
{
    if events.len() == 0 {
        seq![]
    } else {
        let before = pages_copied(start, events.drop_last());
        match (last_request(start, events), events.last()) {
            (
                Some(SegmentRequest::AppendPage { kind, page }),
                SegmentEvent::PageAppended(Ok(_)),
            ) => before.push(page),
            _ => before,
        }
    }
}

/// The publications that were carried out, in order.
pub open spec fn publications<K, E>(
    start: SegmentState<K, E>,
    events: Seq<SegmentEvent<K, E>>,
) -> Seq<SegmentRequest<K>>
    decreases events.len(),
{
    if events.len() == 0 {
        seq![]
    } else {
        let before = publications(start, events.drop_last());
        match (last_request(start, events), events.last()) {
            (Some(request), SegmentEvent::Replaced(Ok(_))) => before.push(request),
            _ => before,
        }
    }
}

/// The metadata of every segment that was sealed, in order.
pub open spec fn sealed<K, E>(events: Seq<SegmentEvent<K, E>>) -> Seq<SegmentMeta<K>>
    decreases events.len(),
{
    if events.len() == 0 {
        seq![]
    } else {
        let before = sealed(events.drop_last());
        match events.last() {
            SegmentEvent::Sealed(Ok(meta)) => before.push(meta),
            _ => before,
        }
    }
}

/// How many data pages a segment of `page_count` pages has.
pub open spec fn data_page_count(page_count: u64) -> nat {
    if page_count >= 2 {
        (page_count - 2) as nat
    } else {
        0
    }
}

/// The error that an answer brings, whatever becomes of it.
pub open spec fn error_in<K, E>(event: SegmentEvent<K, E>) -> Option<PagedbError<E>> {
    match event {
        SegmentEvent::Measured(Err(e)) => Some(e),
        SegmentEvent::ReaderOpened(Err(e)) => Some(e),
        SegmentEvent::StagingDirMade(Err(e)) => Some(e),
        SegmentEvent::SegmentIdDrawn(Err(e)) => Some(e),
        SegmentEvent::WriterCreated(Err(e)) => Some(e),
        SegmentEvent::PageRead(Err(e)) => Some(e),
        SegmentEvent::PageAppended(Err(e)) => Some(e),
        SegmentEvent::Sealed(Err(e)) => Some(e),
        SegmentEvent::Replaced(Err(e)) => Some(e),
        _ => None,
    }
}

/// A well-formed repack stays well-formed, and keeps its row.
proof fn lemma_run_keeps_row<K, E>(
    start: SegmentState<K, E>,
    events: Seq<SegmentEvent<K, E>>,
)
    requires
        start.wf(),
        run(start, events) is Some,
    ensures
        run(start, events)->0.wf(),
        run(start, events)->0.options == start.options,
        run(start, events)->0.row == start.row,
    decreases events.len(),
{
    if events.len() > 0 {
        lemma_run_keeps_row(start, events.drop_last());
    }
}

/// A repack works on one row from beginning to end, under the same options.
pub proof fn law_row_is_kept<K, E>(
    options: CompactOptions,
    row: SegmentRow<K>,
    events: Seq<SegmentEvent<K, E>>,
)
    requires
        repack_after(options, row, events) is Some,
    ensures
        repack_after(options, row, events)->0.options == options,
        repack_after(options, row, events)->0.row == row,
{
    lemma_run_keeps_row(SegmentState::<K, E>::initial(options, row), events);
}

/// A repack waits for work until it has ended, and for none afterwards: then no
/// answer is taken any more.
pub proof fn law_work_is_named_until_the_end<K, E>(
    state: SegmentState<K, E>,
    event: SegmentEvent<K, E>,
)
    ensures
        state.request() is None <==> state.stage is Done,
        state.stage is Done ==> state.after(event) is None,
{
}

/// No error is swallowed: whatever work an error comes from, the repack ends
/// with that error. The one exception is a page that is not found.
pub proof fn law_errors_surface<K, E>(state: SegmentState<K, E>, event: SegmentEvent<K, E>)
    requires
        state.after(event) is Some,
        error_in(event) is Some,
        !(event is PageRead && error_in(event)->0 is NotFound),
    ensures
        state.after(event)->0.stage == SegmentStage::<K, E>::Done(
            SegmentOutcome::Failed(error_in(event)->0),
        ),
{
}

/// A page that is not found is left out, and the repack goes on.
pub proof fn law_missing_pages_are_left_out<K, E>(
    state: SegmentState<K, E>,
    event: SegmentEvent<K, E>,
)
    requires
        state.after(event) is Some,
        event matches SegmentEvent::PageRead(Err(PagedbError::NotFound)),
    ensures
        state.after(event)->0.stage is ReadPage || state.after(event)->0.stage is Seal,
{
}

/// A repack fails only with an error that its last answer brought, or because
/// the key of a row whose segment is due for a repack is malformed, which is
/// found before anything is written.
pub proof fn law_failures_have_a_cause<K, E>(
    options: CompactOptions,
    row: SegmentRow<K>,
    events: Seq<SegmentEvent<K, E>>,
    e: PagedbError<E>,
)
    requires
        repack_after(options, row, events) is Some,
        repack_after(options, row, events)->0.stage == SegmentStage::<K, E>::Done(
            SegmentOutcome::Failed(e),
        ),
    ensures
        events.len() > 0,
        error_in(events.last()) == Some(e) || {
            &&& e is MalformedSegmentKey
            &&& events.len() == 1
            &&& !repack_after(options, row, events)->0.has_valid_key()
            &&& events[0] matches SegmentEvent::Measured(Ok(size))
            &&& is_wasteful(size, row.meta.total_bytes)
        },
{
    let start = SegmentState::<K, E>::initial(options, row);
    lemma_run_keeps_row(start, events);
    lemma_measured_first(options, row, events);
    lemma_run_keeps_row(start, events.drop_last());
    lemma_measured_first(options, row, events.drop_last());
}

/// The size of the live file comes first, and decides.
proof fn lemma_measured_first<K, E>(
    options: CompactOptions,
    row: SegmentRow<K>,
    events: Seq<SegmentEvent<K, E>>,
)
    requires
        repack_after(options, row, events) is Some,
    ensures
        ({
            let state = repack_after(options, row, events)->0;
            &&& state.stage is Measure <==> events.len() == 0
            &&& events.len() > 0 ==> events[0] is Measured
            &&& match state.stage {
                SegmentStage::Measure => true,
                SegmentStage::Done(SegmentOutcome::Failed(_)) => true,
                SegmentStage::Done(SegmentOutcome::Skipped) => {
                    &&& events.len() == 1
                    &&& events[0] matches SegmentEvent::Measured(Ok(size))
                    &&& !is_wasteful(size, row.meta.total_bytes)
                },
                _ => {
                    &&& state.has_valid_key()
                    &&& events[0] matches SegmentEvent::Measured(Ok(size))
                    &&& is_wasteful(size, row.meta.total_bytes)
                },
            }
        }),
    decreases events.len(),
{
    if events.len() > 0 {
        lemma_measured_first(options, row, events.drop_last());
        lemma_run_keeps_row(SegmentState::<K, E>::initial(options, row), events.drop_last());
        if events.len() > 1 {
            assert(events.drop_last()[0] == events[0]);
        }
    }
}

/// A segment is skipped exactly when its file is measured and carries at most
/// 5% garbage. Nothing else is asked for it.
pub proof fn law_lean_segments_are_skipped<K, E>(
    options: CompactOptions,
    row: SegmentRow<K>,
    events: Seq<SegmentEvent<K, E>>,
)
    requires
        repack_after(options, row, events) is Some,
    ensures
        repack_after(options, row, events)->0.stage == SegmentStage::<K, E>::Done(
            SegmentOutcome::Skipped,
        ) <==> {
            &&& events.len() == 1
            &&& events[0] matches SegmentEvent::Measured(Ok(size))
            &&& !is_wasteful(size, row.meta.total_bytes)
        },
{
    lemma_measured_first(options, row, events);
    if events.len() == 1 {
        assert(events.drop_last() =~= Seq::<SegmentEvent<K, E>>::empty());
        assert(run(SegmentState::<K, E>::initial(options, row), events.drop_last()) == Some(
            SegmentState::<K, E>::initial(options, row),
        ));
    }
}

/// Apart from the measuring itself, work is asked only for a segment whose file
/// was measured to carry more than 5% garbage and whose row's key is valid. Only
/// such a segment is ever repacked.
pub proof fn law_only_wasteful_segments_are_touched<K, E>(
    options: CompactOptions,
    row: SegmentRow<K>,
    events: Seq<SegmentEvent<K, E>>,
)
    requires
        repack_after(options, row, events) is Some,
        repack_after(options, row, events)->0.request() is Some && !(repack_after(
            options,
            row,
            events,
        )->0.request()->0 is Measure) || repack_after(options, row, events)->0.stage
            == SegmentStage::<K, E>::Done(SegmentOutcome::Repacked),
    ensures
        repack_after(options, row, events)->0.has_valid_key(),
        events.len() > 0,
        events[0] matches SegmentEvent::Measured(Ok(size)) && is_wasteful(
            size,
            row.meta.total_bytes,
        ),
{
    lemma_measured_first(options, row, events);
}

/// How far the copy has come at each stage.
proof fn lemma_copy<K, E>(
    options: CompactOptions,
    row: SegmentRow<K>,
    events: Seq<SegmentEvent<K, E>>,
)
    requires
        repack_after(options, row, events) is Some,
    ensures
        ({
            let start = SegmentState::<K, E>::initial(options, row);
            let state = repack_after(options, row, events)->0;
            let asked = pages_asked(start, events);
            let found = pages_found(events);
            let copied = pages_copied(start, events);
            let data_pages = data_page_count(row.meta.page_count);
            &&& forall|i: int| 0 <= i < asked.len() ==> asked[i] == i + 1
            &&& match state.stage {
                SegmentStage::ReadPage { page_id } => asked.len() == page_id - 1 && copied == found,
                SegmentStage::AppendPage { page_id, page } => asked.len() == page_id
                    && copied.push(page@) == found,
                SegmentStage::Seal => asked.len() == data_pages && copied == found,
                SegmentStage::Replace { new_meta } => asked.len() == data_pages && copied == found,
                SegmentStage::Done(SegmentOutcome::Repacked) => asked.len() == data_pages && copied
                    == found,
                SegmentStage::Done(_) => true,
                _ => asked.len() == 0 && copied.len() == 0 && found.len() == 0,
            }
        }),
    decreases events.len(),
{
    if events.len() > 0 {
        let start = SegmentState::<K, E>::initial(options, row);
        lemma_copy(options, row, events.drop_last());
        lemma_run_keeps_row(start, events.drop_last());
    }
}

/// A repacked segment's data pages were each asked for once, in order, and
/// those that could be read went into the replacement, unchanged and in order.
pub proof fn law_data_pages_are_copied<K, E>(
    options: CompactOptions,
    row: SegmentRow<K>,
    events: Seq<SegmentEvent<K, E>>,
)
    requires
        repack_after(options, row, events) is Some,
        repack_after(options, row, events)->0.stage == SegmentStage::<K, E>::Done(
            SegmentOutcome::Repacked,
        ),
    ensures
        pages_asked(SegmentState::<K, E>::initial(options, row), events) == Seq::new(
            data_page_count(row.meta.page_count),
            |i: int| (i + 1) as u64,
        ),
        pages_copied(SegmentState::<K, E>::initial(options, row), events) == pages_found(events),
{
    lemma_copy(options, row, events);
    assert(pages_asked(SegmentState::<K, E>::initial(options, row), events) =~= Seq::new(
        data_page_count(row.meta.page_count),
        |i: int| (i + 1) as u64,
    ));
}

proof fn lemma_publication<K, E>(
    options: CompactOptions,
    row: SegmentRow<K>,
    events: Seq<SegmentEvent<K, E>>,
)
    requires
        repack_after(options, row, events) is Some,
    ensures
        ({
            let state = repack_after(options, row, events)->0;
            let done = publications(SegmentState::<K, E>::initial(options, row), events);
            let metas = sealed(events);
            match state.stage {
                SegmentStage::Replace { new_meta } => done.len() == 0 && metas == seq![new_meta],
                SegmentStage::Done(SegmentOutcome::Repacked) => metas.len() == 1 && done == seq![
                    SegmentRequest::Replace {
                        name: text_in(name_in_key(row.key@)),
                        old_segment_id: row.meta.segment_id,
                        new_meta: metas[0],
                    },
                ],
                SegmentStage::Done(_) => done.len() == 0,
                _ => done.len() == 0 && metas.len() == 0,
            }
        }),
    decreases events.len(),
{
    if events.len() > 0 {
        let start = SegmentState::<K, E>::initial(options, row);
        lemma_publication(options, row, events.drop_last());
        lemma_run_keeps_row(start, events.drop_last());
        let done = publications(start, events);
        let metas = sealed(events);
        assert(metas.len() == 1 ==> metas =~= seq![metas[0]]);
        assert(done.len() == 1 ==> done =~= seq![done[0]]);
    }
}

/// A repack publishes at most once, and exactly when it reports the segment as
/// repacked: the one segment it sealed, in place of the old one, under the name
/// in the row's own key.
pub proof fn law_replacement_is_published_once<K, E>(
    options: CompactOptions,
    row: SegmentRow<K>,
    events: Seq<SegmentEvent<K, E>>,
)
    requires
        repack_after(options, row, events) is Some,
    ensures
        ({
            let done = publications(SegmentState::<K, E>::initial(options, row), events);
            if repack_after(options, row, events)->0.stage == SegmentStage::<K, E>::Done(
                SegmentOutcome::Repacked,
            ) {
                &&& sealed(events).len() == 1
                &&& done == seq![
                    SegmentRequest::Replace {
                        name: text_in(name_in_key(row.key@)),
                        old_segment_id: row.meta.segment_id,
                        new_meta: sealed(events)[0],
                    },
                ]
            } else {
                done.len() == 0
            }
        }),
{
    lemma_publication(options, row, events);
}

/// A replacement is linked under the key of the row it replaces, where the name
/// in that key is text: the key spelled with the bytes of the published name is
/// the row's own.
pub proof fn law_replacement_keeps_the_key<K, E>(
    options: CompactOptions,
    row: SegmentRow<K>,
    events: Seq<SegmentEvent<K, E>>,
)
    requires
        repack_after(options, row, events) is Some,
        repack_after(options, row, events)->0.request() is Some,
        repack_after(options, row, events)->0.request()->0 is Replace,
        valid_utf8(name_in_key(row.key@)),
    ensures
        segment_key(
            options.segment_row_kind,
            row.meta.realm_id,
            encode_utf8(repack_after(options, row, events)->0.request()->0->name),
        ) == row.key@,
{
    lemma_measured_first(options, row, events);
    lemma_run_keeps_row(SegmentState::<K, E>::initial(options, row), events);
    decode_utf8_encode_utf8(name_in_key(row.key@));
}

/// A bound on the answers that a repack still takes.
pub open spec fn answers_left<K, E>(state: SegmentState<K, E>) -> nat {
    let page_count = state.row.meta.page_count;
    let data_pages = data_page_count(page_count);
    match state.stage {
        SegmentStage::Measure => 2 * data_pages + 7,
        SegmentStage::OpenReader => 2 * data_pages + 6,
        SegmentStage::MakeStagingDir => 2 * data_pages + 5,
        SegmentStage::DrawSegmentId => 2 * data_pages + 4,
        SegmentStage::CreateWriter { new_segment_id } => 2 * data_pages + 3,
        SegmentStage::ReadPage { page_id } => (2 * (page_count - page_id)) as nat,
        SegmentStage::AppendPage { page_id, page } => (2 * (page_count - page_id) - 1) as nat,
        SegmentStage::Seal => 2,
        SegmentStage::Replace { new_meta } => 1,
        SegmentStage::Done(_) => 0,
    }
}

/// Every answer brings the end of a repack nearer, so it always ends: after at
/// most two answers for each data page and seven besides.
pub proof fn law_repack_ends<K, E>(
    options: CompactOptions,
    row: SegmentRow<K>,
    events: Seq<SegmentEvent<K, E>>,
)
    requires
        repack_after(options, row, events) is Some,
    ensures
        events.len() + answers_left(repack_after(options, row, events)->0) <= 2 * data_page_count(
            row.meta.page_count,
        ) + 7,
    decreases events.len(),
{
    if events.len() > 0 {
        law_repack_ends(options, row, events.drop_last());
        lemma_run_keeps_row(SegmentState::<K, E>::initial(options, row), events.drop_last());
    }
}

} // verus!
