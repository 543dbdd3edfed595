//! What work the repack of a segment asks for, told from the answers it has had.

use crate::catalog::SegmentRow;
use crate::catalog::law_valid_keys;
use crate::errors::PagedbError;
use crate::options::CompactOptions;
use crate::path_laws::is_live_path_of;
use crate::path_laws::law_id_is_read_back;
use crate::segment::OpenMode;
use crate::segment::SegmentAction;
use crate::segment::SegmentEvent;
use crate::segment::SegmentOutcome;
use crate::segment::SegmentPageKind;
use crate::segment::SegmentRequest;
use crate::segment::SegmentStage;
use crate::segment::SegmentState;
use crate::segment::is_wasteful;
use crate::segment_laws::error_in;
use crate::segment_laws::law_row_is_kept;
use crate::segment_laws::repack_after;
use crate::text::lossy_text;
use vstd::prelude::*;
use vstd::utf8::decode_utf8;
use vstd::utf8::valid_utf8;

verus! {

/// An action asks for exactly what stands in it.
pub proof fn law_action_asks_for_what_it_holds<'a, K>(action: SegmentAction<'a, K>)
    ensures
        match action {
            SegmentAction::Measure { path, mode } => action@ == (SegmentRequest::<K>::Measure {
                path: path@,
                mode,
            }),
            SegmentAction::OpenReader { meta, mmap_limit } => action@
                == (SegmentRequest::OpenReader { meta: *meta, mmap_limit }),
            SegmentAction::MakeStagingDir { dir } => action@
                == (SegmentRequest::<K>::MakeStagingDir { dir: dir@ }),
            SegmentAction::DrawSegmentId => action@ == SegmentRequest::<K>::DrawSegmentId,
            SegmentAction::CreateWriter { realm_id, new_segment_id, segment_kind } => action@ == (
            SegmentRequest::CreateWriter { realm_id, new_segment_id, segment_kind: *segment_kind }),
            SegmentAction::ReadPage { page_id } => action@ == (SegmentRequest::<K>::ReadPage {
                page_id,
            }),
            SegmentAction::AppendPage { kind, page } => action@
                == (SegmentRequest::<K>::AppendPage { kind, page: page@ }),
            SegmentAction::Seal => action@ == SegmentRequest::<K>::Seal,
            SegmentAction::Replace { name, old_segment_id, new_meta } => action@
                == (SegmentRequest::Replace { name: name@, old_segment_id, new_meta: *new_meta }),
        },
{
}

/// A file is wasteful exactly where it is larger than the bytes that count in it
/// by more than 5% of them. So is every larger file with as many bytes that
/// count, and no file that they fill.
pub proof fn law_limit_is_five_percent(file_size: u64, larger: u64, total_bytes: u64)
    requires
        file_size <= larger,
    ensures
        is_wasteful(file_size, total_bytes) <==> 100 * (file_size - total_bytes) > 5 * total_bytes,
        is_wasteful(file_size, total_bytes) ==> is_wasteful(larger, total_bytes),
        !is_wasteful(total_bytes, total_bytes),
{
}

/// Whatever work is asked for, every answer to that work is taken, good or bad
/// and whatever it brings; and nothing else is.
pub proof fn law_every_answer_is_taken<K, E>(
    state: SegmentState<K, E>,
    event: SegmentEvent<K, E>,
)
    ensures
        state.after(event) is Some <==> {
            &&& state.request() is Some
            &&& match event {
                SegmentEvent::Measured(_) => state.request()->0 is Measure,
                SegmentEvent::ReaderOpened(_) => state.request()->0 is OpenReader,
                SegmentEvent::StagingDirMade(_) => state.request()->0 is MakeStagingDir,
                SegmentEvent::SegmentIdDrawn(_) => state.request()->0 is DrawSegmentId,
                SegmentEvent::WriterCreated(_) => state.request()->0 is CreateWriter,
                SegmentEvent::PageRead(_) => state.request()->0 is ReadPage,
                SegmentEvent::PageAppended(_) => state.request()->0 is AppendPage,
                SegmentEvent::Sealed(_) => state.request()->0 is Seal,
                SegmentEvent::Replaced(_) => state.request()->0 is Replace,
            }
        },
{
}

/// How many pages were answered for, found or not.
pub open spec fn pages_answered<K, E>(events: Seq<SegmentEvent<K, E>>) -> nat
    decreases events.len(),
{
    if events.len() == 0 {
        0
    } else {
        pages_answered(events.drop_last()) + if events.last() is PageRead {
            1nat
        } else {
            0
        }
    }
}

/// Pages are asked for one after the other.
proof fn lemma_pages_in_turn<K, E>(
    options: CompactOptions,
    row: SegmentRow<K>,
    events: Seq<SegmentEvent<K, E>>,
)
    requires
        repack_after(options, row, events) is Some,
    ensures
        match repack_after(options, row, events)->0.stage {
            SegmentStage::Measure => pages_answered(events) == 0 && events.len() == 0,
            SegmentStage::OpenReader => pages_answered(events) == 0,
            SegmentStage::MakeStagingDir => pages_answered(events) == 0,
            SegmentStage::DrawSegmentId => pages_answered(events) == 0,
            SegmentStage::CreateWriter { new_segment_id } => pages_answered(events) == 0,
            SegmentStage::ReadPage { page_id } => pages_answered(events) + 1 == page_id,
            SegmentStage::AppendPage { page_id, page } => pages_answered(events) == page_id,
            _ => true,
        },
    decreases events.len(),
{
    if events.len() > 0 {
        lemma_pages_in_turn(options, row, events.drop_last());
        law_row_is_kept(options, row, events.drop_last());
        lemma_stays_wf(options, row, events.drop_last());
    }
}

proof fn lemma_stays_wf<K, E>(
    options: CompactOptions,
    row: SegmentRow<K>,
    events: Seq<SegmentEvent<K, E>>,
)
    requires
        repack_after(options, row, events) is Some,
    ensures
        repack_after(options, row, events)->0.wf(),
    decreases events.len(),
{
    if events.len() > 0 {
        lemma_stays_wf(options, row, events.drop_last());
    }
}

/// A repack begins with the size of the file that the segment's id names,
/// opened for reading.
pub proof fn law_live_file_is_measured_first<K, E>(
    options: CompactOptions,
    row: SegmentRow<K>,
    events: Seq<SegmentEvent<K, E>>,
)
    requires
        repack_after(options, row, events) is Some,
    ensures
        events.len() == 0 <==> {
            &&& repack_after(options, row, events)->0.request() is Some
            &&& repack_after(options, row, events)->0.request()->0 is Measure
        },
        events.len() == 0 ==> {
            let request = repack_after(options, row, events)->0.request()->0;
            &&& is_live_path_of(request->path, row.meta.segment_id)
            &&& request->Measure_mode == OpenMode::Read
        },
{
    lemma_pages_in_turn(options, row, events);
    law_id_is_read_back(row.meta.segment_id);
}

/// The size of the file decides. Up to a twentieth beyond the bytes that count,
/// the segment is let be. Beyond that it is read, through a reader over the row's
/// own metadata that maps no more than the options allow; but where the row's key
/// is not the kind byte, the realm and a name, the repack fails for it.
pub proof fn law_size_decides<K, E>(
    options: CompactOptions,
    row: SegmentRow<K>,
    events: Seq<SegmentEvent<K, E>>,
    file_size: u64,
)
    requires
        repack_after(options, row, events) is Some,
        events.len() > 0,
        events.last() == SegmentEvent::<K, E>::Measured(Ok(file_size)),
    ensures
        ({
            let state = repack_after(options, row, events)->0;
            let total_bytes = row.meta.total_bytes;
            let key = row.key@;
            if 100 * (file_size - total_bytes) <= 5 * total_bytes {
                &&& state.request() is None
                &&& state.stage == SegmentStage::<K, E>::Done(SegmentOutcome::Skipped)
            } else if key.len() >= 17 && key[0] == options.segment_row_kind && key.subrange(1, 17)
                == row.meta.realm_id@ {
                state.request() == Some(
                    SegmentRequest::OpenReader {
                        meta: row.meta,
                        mmap_limit: options.mmap_view_scratch_bytes as u64,
                    },
                )
            } else {
                &&& state.request() is None
                &&& state.stage == SegmentStage::<K, E>::Done(
                    SegmentOutcome::Failed(PagedbError::MalformedSegmentKey),
                )
            }
        }),
{
    law_row_is_kept(options, row, events.drop_last());
    law_valid_keys(options.segment_row_kind, row.meta.realm_id, row.key@);
}

/// Behind an open reader come the staging directory, an id for the replacement,
/// and a writer for it: under the id that was drawn, in the realm and of the kind
/// of the segment that it replaces.
pub proof fn law_replacement_is_begun<K, E>(
    options: CompactOptions,
    row: SegmentRow<K>,
    events: Seq<SegmentEvent<K, E>>,
)
    requires
        repack_after(options, row, events) is Some,
        events.len() > 0,
    ensures
        ({
            let request = repack_after(options, row, events)->0.request();
            match events.last() {
                SegmentEvent::ReaderOpened(Ok(_)) => request == Some(
                    SegmentRequest::<K>::MakeStagingDir { dir: "seg/.staging"@ },
                ),
                SegmentEvent::StagingDirMade(Ok(_)) => request == Some(
                    SegmentRequest::<K>::DrawSegmentId,
                ),
                SegmentEvent::SegmentIdDrawn(Ok(drawn)) => request == Some(
                    SegmentRequest::CreateWriter {
                        realm_id: row.meta.realm_id,
                        new_segment_id: drawn,
                        segment_kind: row.meta.segment_kind,
                    },
                ),
                _ => true,
            }
        }),
        repack_after(options, row, events)->0.request() matches Some(
            SegmentRequest::CreateWriter { realm_id, new_segment_id, segment_kind },
        ) ==> {
            &&& realm_id == row.meta.realm_id
            &&& segment_kind == row.meta.segment_kind
            &&& events.last() == SegmentEvent::<K, E>::SegmentIdDrawn(Ok(new_segment_id))
        },
{
    law_row_is_kept(options, row, events.drop_last());
}

/// A page that was read goes into the replacement as a data page, byte for byte.
/// With a page settled, appended or not found, the next one is asked for, from
/// the second page of the file to the last but one; then the replacement is
/// sealed.
pub proof fn law_pages_go_over_in_turn<K, E>(
    options: CompactOptions,
    row: SegmentRow<K>,
    events: Seq<SegmentEvent<K, E>>,
)
    requires
        repack_after(options, row, events) is Some,
        events.len() > 0,
    ensures
        ({
            let request = repack_after(options, row, events)->0.request();
            let next_or_seal = if pages_answered(events) + 2 < row.meta.page_count {
                SegmentRequest::<K>::ReadPage { page_id: (pages_answered(events) + 1) as u64 }
            } else {
                SegmentRequest::<K>::Seal
            };
            match events.last() {
                SegmentEvent::WriterCreated(Ok(_)) => request == Some(next_or_seal)
                    && pages_answered(events) == 0,
                SegmentEvent::PageRead(Ok(page)) => request == Some(
                    SegmentRequest::<K>::AppendPage { kind: SegmentPageKind::Data, page: page@ },
                ),
                SegmentEvent::PageRead(Err(PagedbError::NotFound)) => request == Some(next_or_seal),
                SegmentEvent::PageAppended(Ok(_)) => request == Some(next_or_seal),
                _ => true,
            }
        }),
{
    law_row_is_kept(options, row, events.drop_last());
    lemma_pages_in_turn(options, row, events.drop_last());
    lemma_stays_wf(options, row, events.drop_last());
}

/// A sealed replacement is published, as it was sealed and in place of the
/// segment that the row links, under the name that stands in the row's key
/// behind the kind byte and the realm. With the publication the segment is
/// repacked.
pub proof fn law_sealed_replacement_is_published<K, E>(
    options: CompactOptions,
    row: SegmentRow<K>,
    events: Seq<SegmentEvent<K, E>>,
)
    requires
        repack_after(options, row, events) is Some,
        events.len() > 0,
    ensures
        ({
            let state = repack_after(options, row, events)->0;
            let name = row.key@.subrange(17, row.key@.len() as int);
            match events.last() {
                SegmentEvent::Sealed(Ok(new_meta)) => {
                    &&& row.key@.len() >= 17
                    &&& state.request() == Some(
                        SegmentRequest::Replace {
                            name: if valid_utf8(name) {
                                decode_utf8(name)
                            } else {
                                lossy_text(name)
                            },
                            old_segment_id: row.meta.segment_id,
                            new_meta,
                        },
                    )
                },
                SegmentEvent::Replaced(Ok(_)) => {
                    &&& state.request() is None
                    &&& state.stage == SegmentStage::<K, E>::Done(SegmentOutcome::Repacked)
                },
                _ => true,
            }
        }),
{
    law_row_is_kept(options, row, events.drop_last());
    lemma_stays_wf(options, row, events.drop_last());
    law_valid_keys(options.segment_row_kind, row.meta.realm_id, row.key@);
}

/// An error ends the repack with that error, and nothing is asked for any more,
/// unless it only says that a page is not there.
pub proof fn law_errors_end_the_repack<K, E>(
    options: CompactOptions,
    row: SegmentRow<K>,
    events: Seq<SegmentEvent<K, E>>,
    e: PagedbError<E>,
)
    requires
        repack_after(options, row, events) is Some,
        events.len() > 0,
        error_in(events.last()) == Some(e),
        !(events.last() is PageRead && e is NotFound),
    ensures
        repack_after(options, row, events)->0.request() is None,
        repack_after(options, row, events)->0.stage == SegmentStage::<K, E>::Done(
            SegmentOutcome::Failed(e),
        ),
{
}

} // verus!
