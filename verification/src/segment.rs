//! Repacking one segment file.
//!
//! A segment is repacked when its file carries more than 5% garbage: its data
//! pages are copied into a fresh segment in the staging directory, and the
//! replacement is published under the name that the catalog row carries.

use crate::catalog::SegmentMeta;
use crate::catalog::SegmentRow;
use crate::catalog::is_segment_key;
use crate::catalog::name_in_key;
use crate::catalog::validate_segment_key;
use crate::errors::PagedbError;
use crate::options::CompactOptions;
use crate::paths::live_path;
use crate::paths::live_path_text;
use crate::paths::staging_dir;
use crate::text::read_lossy;
use crate::text::text_in;
use vstd::prelude::*;

verus! {

/// How a segment file is opened.
#[derive(Debug, Clone, Copy, PartialEq, Eq)]
pub enum OpenMode {
    /// For reading.
    Read,
}

/// What a segment page holds.
#[derive(Debug, Clone, Copy, PartialEq, Eq)]
pub enum SegmentPageKind {
    /// Data of the embedder.
    Data,
}

/// How the repack of one segment ended.
#[derive(Debug, PartialEq, Eq)]
pub enum SegmentOutcome<E> {
    /// The file held too little garbage to be worth a rewrite.
    Skipped,
    /// A replacement was published.
    Repacked,
    /// The repack stopped at this error.
    Failed(PagedbError<E>),
}

/// The work that a segment's repack waits for.
#[derive(Debug)]
pub enum SegmentStage<K, E> {
    /// The size of the live file.
    Measure,
    /// A reader over the segment.
    OpenReader,
    /// The staging directory.
    MakeStagingDir,
    /// An id for the replacement.
    DrawSegmentId,
    /// A writer for the replacement.
    CreateWriter { new_segment_id: [u8; 16] },
    /// The bytes of a page of the segment.
    ReadPage { page_id: u64 },
    /// A page that was read, on its way into the replacement.
    AppendPage { page_id: u64, page: Vec<u8> },
    /// The end of the replacement file.
    Seal,
    /// The replacement's publication.
    Replace { new_meta: SegmentMeta<K> },
    /// Nothing: the repack has ended.
    Done(SegmentOutcome<E>),
}

/// The answer to a [`SegmentAction`].
#[derive(Debug)]
pub enum SegmentEvent<K, E> {
    /// Size in bytes of the live file.
    Measured(Result<u64, PagedbError<E>>),
    /// The reader is open.
    ReaderOpened(Result<(), PagedbError<E>>),
    /// The staging directory exists.
    StagingDirMade(Result<(), PagedbError<E>>),
    /// A fresh segment id.
    SegmentIdDrawn(Result<[u8; 16], PagedbError<E>>),
    /// The writer is open.
    WriterCreated(Result<(), PagedbError<E>>),
    /// The page's bytes.
    PageRead(Result<Vec<u8>, PagedbError<E>>),
    /// The page is in the replacement.
    PageAppended(Result<(), PagedbError<E>>),
    /// The replacement's metadata.
    Sealed(Result<SegmentMeta<K>, PagedbError<E>>),
    /// The catalog names the replacement.
    Replaced(Result<(), PagedbError<E>>),
}

/// Work to be done for a segment's repack.
#[derive(Debug)]
pub enum SegmentAction<'a, K> {
    /// Open the live file at `path` and report its size.
    Measure { path: String, mode: OpenMode },
    /// Open a reader over the segment, which maps at most `mmap_limit` bytes.
    OpenReader { meta: &'a SegmentMeta<K>, mmap_limit: u64 },
    /// Create the directory `dir`, and those above it, where missing.
    MakeStagingDir { dir: &'static str },
    /// Draw a random segment id.
    DrawSegmentId,
    /// Open a writer for a new segment.
    CreateWriter { realm_id: [u8; 16], new_segment_id: [u8; 16], segment_kind: &'a K },
    /// Read a page through the reader.
    ReadPage { page_id: u64 },
    /// Append a page through the writer.
    AppendPage { kind: SegmentPageKind, page: &'a [u8] },
    /// Finish the written segment and report its metadata.
    Seal,
    /// Link the written segment under `name`, in place of the old one.
    Replace { name: String, old_segment_id: [u8; 16], new_meta: &'a SegmentMeta<K> },
}

/// What a [`SegmentAction`] asks for.
pub enum SegmentRequest<K> {
    Measure { path: Seq<char>, mode: OpenMode },
    OpenReader { meta: SegmentMeta<K>, mmap_limit: u64 },
    MakeStagingDir { dir: Seq<char> },
    DrawSegmentId,
    CreateWriter { realm_id: [u8; 16], new_segment_id: [u8; 16], segment_kind: K },
    ReadPage { page_id: u64 },
    AppendPage { kind: SegmentPageKind, page: Seq<u8> },
    Seal,
    Replace { name: Seq<char>, old_segment_id: [u8; 16], new_meta: SegmentMeta<K> },
}

impl<'a, K> View for SegmentAction<'a, K> {
    type V = SegmentRequest<K>;

    open spec fn view(&self) -> SegmentRequest<K> {
        match *self {
            SegmentAction::Measure { path, mode } => SegmentRequest::Measure { path: path@, mode },
            SegmentAction::OpenReader { meta, mmap_limit } => SegmentRequest::OpenReader {
                meta: *meta,
                mmap_limit,
            },
            SegmentAction::MakeStagingDir { dir } => SegmentRequest::MakeStagingDir { dir: dir@ },
            SegmentAction::DrawSegmentId => SegmentRequest::DrawSegmentId,
            SegmentAction::CreateWriter { realm_id, new_segment_id, segment_kind } =>
                SegmentRequest::CreateWriter {
                    realm_id,
                    new_segment_id,
                    segment_kind: *segment_kind,
                },
            SegmentAction::ReadPage { page_id } => SegmentRequest::ReadPage { page_id },
            SegmentAction::AppendPage { kind, page } => SegmentRequest::AppendPage {
                kind,
                page: page@,
            },
            SegmentAction::Seal => SegmentRequest::Seal,
            SegmentAction::Replace { name, old_segment_id, new_meta } => SegmentRequest::Replace {
                name: name@,
                old_segment_id,
                new_meta: *new_meta,
            },
        }
    }
}

impl<K, E> SegmentEvent<K, E> {
    /// The error that stops a repack, if the answer brings one.
    ///
    /// A page that is not there is no error: it is left out of the copy.
    pub open spec fn failure(self) -> Option<PagedbError<E>> {
        match self {
            SegmentEvent::Measured(Err(e)) => Some(e),
            SegmentEvent::ReaderOpened(Err(e)) => Some(e),
            SegmentEvent::StagingDirMade(Err(e)) => Some(e),
            SegmentEvent::SegmentIdDrawn(Err(e)) => Some(e),
            SegmentEvent::WriterCreated(Err(e)) => Some(e),
            SegmentEvent::PageRead(Err(e)) => if e is NotFound {
                None
            } else {
                Some(e)
            },
            SegmentEvent::PageAppended(Err(e)) => Some(e),
            SegmentEvent::Sealed(Err(e)) => Some(e),
            SegmentEvent::Replaced(Err(e)) => Some(e),
            _ => None,
        }
    }
}

/// Whether a file of `file_size` bytes, `total_bytes` of which count, carries
/// garbage of more than 5% of the bytes that count.
pub open spec fn is_wasteful(file_size: u64, total_bytes: u64) -> bool {
    20 * (file_size - total_bytes) > total_bytes
}

/// Whether a file of `file_size` bytes, `total_bytes` of which count, carries
/// garbage of more than 5% of the bytes that count.
pub fn exceeds_garbage_limit(file_size: u64, total_bytes: u64) -> (wasteful: bool)
    ensures
        wasteful == is_wasteful(file_size, total_bytes),
        wasteful <==> 100 * (file_size - total_bytes) > 5 * total_bytes,
{
    let threshold: u64 = total_bytes.saturating_add(total_bytes / 20);
    file_size > threshold
}

/// Where a segment's repack stands.
pub struct SegmentState<K, E> {
    pub options: CompactOptions,
    pub row: SegmentRow<K>,
    pub stage: SegmentStage<K, E>,
}

impl<K, E> SegmentState<K, E> {
    /// The state before any work on `row`.
    pub open spec fn initial(options: CompactOptions, row: SegmentRow<K>) -> Self {
        SegmentState { options, row, stage: SegmentStage::Measure }
    }

    /// Whether the row's key spells out the row's metadata.
    pub open spec fn has_valid_key(self) -> bool {
        is_segment_key(self.options.segment_row_kind, self.row.meta.realm_id, self.row.key@)
    }

    /// Whether `page_id` is a data page: neither the header page, which is the
    /// first, nor the footer page, which is the last.
    pub open spec fn is_data_page(self, page_id: int) -> bool {
        1 <= page_id < self.row.meta.page_count - 1
    }

    /// Nothing is written or published for a row whose key is malformed, and
    /// only data pages are copied.
    pub open spec fn wf(self) -> bool {
        match self.stage {
            SegmentStage::Measure => true,
            SegmentStage::Done(outcome) => outcome is Repacked ==> self.has_valid_key(),
            SegmentStage::ReadPage { page_id } => self.has_valid_key() && self.is_data_page(
                page_id as int,
            ),
            SegmentStage::AppendPage { page_id, page } => self.has_valid_key()
                && self.is_data_page(page_id as int),
            _ => self.has_valid_key(),
        }
    }

    /// The work that is waited for, if the repack has not ended.
    pub open spec fn request(self) -> Option<SegmentRequest<K>> {
        match self.stage {
            SegmentStage::Measure => Some(
                SegmentRequest::Measure {
                    path: live_path_text(self.row.meta.segment_id),
                    mode: OpenMode::Read,
                },
            ),
            SegmentStage::OpenReader => Some(
                SegmentRequest::OpenReader {
                    meta: self.row.meta,
                    mmap_limit: self.options.mmap_view_scratch_bytes as u64,
                },
            ),
            SegmentStage::MakeStagingDir => Some(
                SegmentRequest::MakeStagingDir { dir: "seg/.staging"@ },
            ),
            SegmentStage::DrawSegmentId => Some(SegmentRequest::DrawSegmentId),
            SegmentStage::CreateWriter { new_segment_id } => Some(
                SegmentRequest::CreateWriter {
                    realm_id: self.row.meta.realm_id,
                    new_segment_id,
                    segment_kind: self.row.meta.segment_kind,
                },
            ),
            SegmentStage::ReadPage { page_id } => Some(SegmentRequest::ReadPage { page_id }),
            SegmentStage::AppendPage { page_id, page } => Some(
                SegmentRequest::AppendPage { kind: SegmentPageKind::Data, page: page@ },
            ),
            SegmentStage::Seal => Some(SegmentRequest::Seal),
            SegmentStage::Replace { new_meta } => Some(
                SegmentRequest::Replace {
                    name: text_in(name_in_key(self.row.key@)),
                    old_segment_id: self.row.meta.segment_id,
                    new_meta,
                },
            ),
            SegmentStage::Done(_) => None,
        }
    }

    /// Whether `event` answers the work that is waited for.
    pub open spec fn is_answered_by(self, event: SegmentEvent<K, E>) -> bool {
        match event {
            SegmentEvent::Measured(_) => self.stage is Measure,
            SegmentEvent::ReaderOpened(_) => self.stage is OpenReader,
            SegmentEvent::StagingDirMade(_) => self.stage is MakeStagingDir,
            SegmentEvent::SegmentIdDrawn(_) => self.stage is DrawSegmentId,
            SegmentEvent::WriterCreated(_) => self.stage is CreateWriter,
            SegmentEvent::PageRead(_) => self.stage is ReadPage,
            SegmentEvent::PageAppended(_) => self.stage is AppendPage,
            SegmentEvent::Sealed(_) => self.stage is Seal,
            SegmentEvent::Replaced(_) => self.stage is Replace,
        }
    }

    /// The stage at which `page_id` is next in the copy.
    pub open spec fn copy_from(self, page_id: int) -> SegmentStage<K, E> {
        if self.is_data_page(page_id) {
            SegmentStage::ReadPage { page_id: page_id as u64 }
        } else {
            SegmentStage::Seal
        }
    }

    /// The stage after the size of the live file is known.
    pub open spec fn measured(self, file_size: u64) -> SegmentStage<K, E> {
        if !is_wasteful(file_size, self.row.meta.total_bytes) {
            SegmentStage::Done(SegmentOutcome::Skipped)
        } else if !self.has_valid_key() {
            SegmentStage::Done(SegmentOutcome::Failed(PagedbError::MalformedSegmentKey))
        } else {
            SegmentStage::OpenReader
        }
    }

    /// The stage after an answer that brings no failure.
    pub open spec fn advanced(self, event: SegmentEvent<K, E>) -> SegmentStage<K, E> {
        match (self.stage, event) {
            (_, SegmentEvent::Measured(Ok(file_size))) => self.measured(file_size),
            (_, SegmentEvent::ReaderOpened(_)) => SegmentStage::MakeStagingDir,
            (_, SegmentEvent::StagingDirMade(_)) => SegmentStage::DrawSegmentId,
            (_, SegmentEvent::SegmentIdDrawn(Ok(new_segment_id))) => SegmentStage::CreateWriter {
                new_segment_id,
            },
            (_, SegmentEvent::WriterCreated(_)) => self.copy_from(1),
            (SegmentStage::ReadPage { page_id }, SegmentEvent::PageRead(Ok(page))) =>
                SegmentStage::AppendPage { page_id, page },
            (SegmentStage::ReadPage { page_id }, SegmentEvent::PageRead(Err(_))) => self.copy_from(
                page_id + 1,
            ),
            (SegmentStage::AppendPage { page_id, page }, SegmentEvent::PageAppended(_)) =>
                self.copy_from(page_id + 1),
            (_, SegmentEvent::Sealed(Ok(new_meta))) => SegmentStage::Replace { new_meta },
            (_, SegmentEvent::Replaced(_)) => SegmentStage::Done(SegmentOutcome::Repacked),
            _ => self.stage,
        }
    }

    /// The state after `event`, or `None` where `event` does not answer the
    /// work that is waited for.
    pub open spec fn after(self, event: SegmentEvent<K, E>) -> Option<Self> {
        if !self.is_answered_by(event) {
            None
        } else {
            let stage = match event.failure() {
                Some(e) => SegmentStage::Done(SegmentOutcome::Failed(e)),
                None => self.advanced(event),
            };
            Some(SegmentState { stage, ..self })
        }
    }
}

/// Asks for the replacement to be published under `name`.
pub fn publication<'a, K>(
    name: String,
    old_segment_id: [u8; 16],
    new_meta: &'a SegmentMeta<K>,
) -> (action: SegmentAction<'a, K>)
    ensures
        action@ == (SegmentRequest::Replace { name: name@, old_segment_id, new_meta: *new_meta }),
        action == (SegmentAction::Replace { name, old_segment_id, new_meta }),
{
    SegmentAction::Replace { name, old_segment_id, new_meta }
}

/// The repack of one catalog-linked segment.
pub struct SegmentRepack<K, E> {
    state: SegmentState<K, E>,
}

impl<K, E> View for SegmentRepack<K, E> {
    type V = SegmentState<K, E>;

    closed spec fn view(&self) -> SegmentState<K, E> {
        self.state
    }
}

impl<K, E> SegmentRepack<K, E> {
    #[verifier::type_invariant]
    spec fn inv(self) -> bool {
        self.state.wf()
    }

    /// Takes up the segment that `row` links.
    pub fn new(options: CompactOptions, row: SegmentRow<K>) -> (repack: Self)
        ensures
            repack@ == SegmentState::<K, E>::initial(options, row),
    {
        SegmentRepack { state: SegmentState { options, row, stage: SegmentStage::Measure } }
    }

    /// The work to do next; `None` once the repack has ended.
    pub fn next_action(&self) -> (action: Option<SegmentAction<'_, K>>)
        ensures
            match self@.request() {
                Some(request) => action matches Some(a) && a@ == request,
                None => action is None,
            },
    {
        proof {
            use_type_invariant(self);
        }
        let meta: &SegmentMeta<K> = &self.state.row.meta;
        match &self.state.stage {
            SegmentStage::Measure => Some(
                SegmentAction::Measure { path: live_path(&meta.segment_id), mode: OpenMode::Read },
            ),
            SegmentStage::OpenReader => {
                let mmap_limit: u64 = self.state.options.mmap_view_scratch_bytes as u64;
                Some(SegmentAction::OpenReader { meta, mmap_limit })
            },
            SegmentStage::MakeStagingDir => Some(
                SegmentAction::MakeStagingDir { dir: staging_dir() },
            ),
            SegmentStage::DrawSegmentId => Some(SegmentAction::DrawSegmentId),
            SegmentStage::CreateWriter { new_segment_id } => Some(
                SegmentAction::CreateWriter {
                    realm_id: meta.realm_id,
                    new_segment_id: *new_segment_id,
                    segment_kind: &meta.segment_kind,
                },
            ),
            SegmentStage::ReadPage { page_id } => Some(
                SegmentAction::ReadPage { page_id: *page_id },
            ),
            SegmentStage::AppendPage { page, .. } => Some(
                SegmentAction::AppendPage { kind: SegmentPageKind::Data, page: page.as_slice() },
            ),
            SegmentStage::Seal => Some(SegmentAction::Seal),
            SegmentStage::Replace { new_meta } => {
                let key: &[u8] = self.state.row.key.as_slice();
                let kind: u8 = self.state.options.segment_row_kind;
                let name: Result<&[u8], PagedbError<E>> = validate_segment_key(kind, key, meta);
                match name {
                    Ok(bytes) => Some(publication(read_lossy(bytes), meta.segment_id, new_meta)),
                    Err(_) => None,
                }
            },
            SegmentStage::Done(_) => None,
        }
    }

    fn stage_measured(
        options: &CompactOptions,
        row: &SegmentRow<K>,
        file_size: u64,
    ) -> (stage: SegmentStage<K, E>)
        ensures
            stage == SegmentState::<K, E>::initial(*options, *row).measured(file_size),
    {
        if !exceeds_garbage_limit(file_size, row.meta.total_bytes) {
            return SegmentStage::Done(SegmentOutcome::Skipped);
        }
        let name: Result<&[u8], PagedbError<E>> = validate_segment_key(
            options.segment_row_kind,
            row.key.as_slice(),
            &row.meta,
        );
        match name {
            Ok(_) => SegmentStage::OpenReader,
            Err(e) => SegmentStage::Done(SegmentOutcome::Failed(e)),
        }
    }

    fn stage_copying(
        options: &CompactOptions,
        row: &SegmentRow<K>,
        page_id: u64,
    ) -> (stage: SegmentStage<K, E>)
        requires
            page_id >= 1,
        ensures
            stage == SegmentState::<K, E>::initial(*options, *row).copy_from(page_id as int),
    {
        if page_id < row.meta.page_count.saturating_sub(1) {
            SegmentStage::ReadPage { page_id }
        } else {
            SegmentStage::Seal
        }
    }

    /// Moves on with the answer to the work that was asked for.
    ///
    /// An event that does not answer it is handed back, with the repack as it
    /// was.
    pub fn resume(self, event: SegmentEvent<K, E>) -> (next: Result<
        Self,
        (Self, SegmentEvent<K, E>),
    >)
        ensures
            match self@.after(event) {
                Some(state) => next matches Ok(n) && n@ == state,
                None => next == Err::<Self, (Self, SegmentEvent<K, E>)>((self, event)),
            },
    {
        proof {
            use_type_invariant(&self);
        }
        let SegmentState { options, row, stage } = self.state;
        let next: SegmentStage<K, E> = match (stage, event) {
            (SegmentStage::Measure, SegmentEvent::Measured(Ok(file_size))) => Self::stage_measured(
                &options,
                &row,
                file_size,
            ),
            (SegmentStage::Measure, SegmentEvent::Measured(Err(e)))
            | (SegmentStage::OpenReader, SegmentEvent::ReaderOpened(Err(e)))
            | (SegmentStage::MakeStagingDir, SegmentEvent::StagingDirMade(Err(e)))
            | (SegmentStage::DrawSegmentId, SegmentEvent::SegmentIdDrawn(Err(e)))
            | (SegmentStage::CreateWriter { .. }, SegmentEvent::WriterCreated(Err(e)))
            | (SegmentStage::AppendPage { .. }, SegmentEvent::PageAppended(Err(e)))
            | (SegmentStage::Seal, SegmentEvent::Sealed(Err(e)))
            | (SegmentStage::Replace { .. }, SegmentEvent::Replaced(Err(e))) => SegmentStage::Done(
                SegmentOutcome::Failed(e),
            ),
            (SegmentStage::OpenReader, SegmentEvent::ReaderOpened(Ok(_))) =>
                SegmentStage::MakeStagingDir,
            (SegmentStage::MakeStagingDir, SegmentEvent::StagingDirMade(Ok(_))) =>
                SegmentStage::DrawSegmentId,
            (SegmentStage::DrawSegmentId, SegmentEvent::SegmentIdDrawn(Ok(new_segment_id))) =>
                SegmentStage::CreateWriter { new_segment_id },
            (SegmentStage::CreateWriter { .. }, SegmentEvent::WriterCreated(Ok(_))) =>
                Self::stage_copying(&options, &row, 1),
            (SegmentStage::ReadPage { page_id }, SegmentEvent::PageRead(Ok(page))) =>
                SegmentStage::AppendPage { page_id, page },
            (
                SegmentStage::ReadPage { page_id },
                SegmentEvent::PageRead(Err(PagedbError::NotFound)),
            ) => Self::stage_copying(&options, &row, page_id + 1),
            (SegmentStage::ReadPage { .. }, SegmentEvent::PageRead(Err(e))) => SegmentStage::Done(
                SegmentOutcome::Failed(e),
            ),
            (SegmentStage::AppendPage { page_id, .. }, SegmentEvent::PageAppended(Ok(_))) =>
                Self::stage_copying(&options, &row, page_id + 1),
            (SegmentStage::Seal, SegmentEvent::Sealed(Ok(new_meta))) => SegmentStage::Replace {
                new_meta,
            },
            (SegmentStage::Replace { .. }, SegmentEvent::Replaced(Ok(_))) => SegmentStage::Done(
                SegmentOutcome::Repacked,
            ),
            (stage, event) => {
                return Err(
                    (SegmentRepack { state: SegmentState { options, row, stage } }, event),
                );
            },
        };
        Ok(SegmentRepack { state: SegmentState { options, row, stage: next } })
    }

    /// How the repack ended; the repack itself where it has not.
    pub fn into_outcome(self) -> (outcome: Result<SegmentOutcome<E>, Self>)
        ensures
            match self@.stage {
                SegmentStage::Done(o) => outcome == Ok::<SegmentOutcome<E>, Self>(o),
                _ => outcome == Err::<SegmentOutcome<E>, Self>(self),
            },
    {
        proof {
            use_type_invariant(&self);
        }
        let SegmentState { options, row, stage } = self.state;
        match stage {
            SegmentStage::Done(outcome) => Ok(outcome),
            stage => Err(SegmentRepack { state: SegmentState { options, row, stage } }),
        }
    }
}

} // verus!
