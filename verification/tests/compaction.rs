use std::collections::BTreeMap;

use pagedb_compaction::catalog::{SegmentMeta, SegmentRow};
use pagedb_compaction::errors::PagedbError;
use pagedb_compaction::full::{
    compact_now, Action, CompactNow, DbMode, DenseRepack, Event, ModeCapability,
};
use pagedb_compaction::options::CompactOptions;
use pagedb_compaction::paths::live_path;
use pagedb_compaction::segment::{OpenMode, SegmentAction, SegmentEvent, SegmentPageKind};
use pagedb_compaction::types::CompactStats;

type Error = PagedbError<&'static str>;
type Pass = CompactNow<char, &'static str>;

const KIND: u8 = 4;
const REALM: [u8; 16] = [1u8; 16];

struct Link {
    segment_id: [u8; 16],
    page_count: u64,
    total_bytes: u64,
}

struct File {
    size: u64,
    pages: BTreeMap<u64, Vec<u8>>,
}

/// A store in memory, which logs the work it is asked for.
struct Store {
    readers: usize,
    free_list_root: u64,
    gain: DenseRepack,
    catalog: BTreeMap<Vec<u8>, Link>,
    files: BTreeMap<String, File>,
    ids_drawn: u8,
    batch: usize,
    fault: Option<(&'static str, Error)>,
    log: Vec<String>,
    answers: usize,
    reader: Option<[u8; 16]>,
    writing: Option<([u8; 16], Vec<Vec<u8>>)>,
}

fn key(name: &[u8]) -> Vec<u8> {
    let mut key = vec![KIND];
    key.extend_from_slice(&REALM);
    key.extend_from_slice(name);
    key
}

impl Store {
    fn new() -> Store {
        Store {
            readers: 0,
            free_list_root: 0,
            gain: DenseRepack { pages_reclaimed: 0, bytes_truncated: 0 },
            catalog: BTreeMap::new(),
            files: BTreeMap::new(),
            ids_drawn: 0,
            batch: 64,
            fault: None,
            log: Vec::new(),
            answers: 0,
            reader: None,
            writing: None,
        }
    }

    /// Links a segment whose data pages are `pages`, `None` for a lost one.
    fn link(&mut self, key: Vec<u8>, id: u8, size: u64, total_bytes: u64, pages: &[Option<&[u8]>]) {
        let segment_id = [id; 16];
        let mut stored = BTreeMap::new();
        for (i, page) in pages.iter().enumerate() {
            if let Some(bytes) = page {
                stored.insert(i as u64 + 1, bytes.to_vec());
            }
        }
        self.files.insert(live_path(&segment_id), File { size, pages: stored });
        let page_count = pages.len() as u64 + 2;
        self.catalog.insert(key, Link { segment_id, page_count, total_bytes });
    }

    fn answer<T>(&mut self, work: &'static str, value: T) -> Result<T, Error> {
        self.log.push(work.to_string());
        match self.fault.take() {
            Some((at, e)) if at == work => Err(e),
            other => {
                self.fault = other;
                Ok(value)
            }
        }
    }

    fn rows(&self, cursor: &[u8]) -> Vec<SegmentRow<char>> {
        self.catalog
            .range(cursor.to_vec()..)
            .take(self.batch)
            .map(|(key, link)| SegmentRow {
                key: key.clone(),
                meta: SegmentMeta {
                    segment_id: link.segment_id,
                    realm_id: REALM,
                    segment_kind: 'k',
                    page_count: link.page_count,
                    total_bytes: link.total_bytes,
                },
            })
            .collect()
    }

    fn segment(&mut self, action: SegmentAction<'_, char>) -> SegmentEvent<char, &'static str> {
        match action {
            SegmentAction::Measure { path, mode } => {
                assert_eq!(mode, OpenMode::Read);
                let size = self.files[&path].size;
                SegmentEvent::Measured(self.answer("measure", size))
            }
            SegmentAction::OpenReader { meta, mmap_limit } => {
                assert_eq!(mmap_limit, 4096);
                self.reader = Some(meta.segment_id);
                SegmentEvent::ReaderOpened(self.answer("open reader", ()))
            }
            SegmentAction::MakeStagingDir { dir } => {
                assert_eq!(dir, "seg/.staging");
                SegmentEvent::StagingDirMade(self.answer("mkdir", ()))
            }
            SegmentAction::DrawSegmentId => {
                self.ids_drawn += 1;
                let id = [0xf0 + self.ids_drawn; 16];
                SegmentEvent::SegmentIdDrawn(self.answer("draw id", id))
            }
            SegmentAction::CreateWriter { realm_id, new_segment_id, segment_kind } => {
                assert_eq!(realm_id, REALM);
                assert_eq!(*segment_kind, 'k');
                self.writing = Some((new_segment_id, Vec::new()));
                SegmentEvent::WriterCreated(self.answer("create writer", ()))
            }
            SegmentAction::ReadPage { page_id } => {
                let path = live_path(&self.reader.unwrap());
                match self.files[&path].pages.get(&page_id).cloned() {
                    Some(page) => SegmentEvent::PageRead(self.answer("read page", page)),
                    None => SegmentEvent::PageRead(Err(PagedbError::NotFound)),
                }
            }
            SegmentAction::AppendPage { kind, page } => {
                assert_eq!(kind, SegmentPageKind::Data);
                self.writing.as_mut().unwrap().1.push(page.to_vec());
                SegmentEvent::PageAppended(self.answer("append page", ()))
            }
            SegmentAction::Seal => {
                let (segment_id, pages) = self.writing.take().unwrap();
                let total_bytes = pages.iter().map(|p| p.len() as u64).sum();
                let page_count = pages.len() as u64 + 2;
                let pages = pages.into_iter().enumerate().map(|(i, p)| (i as u64 + 1, p)).collect();
                let file = File { size: total_bytes, pages };
                self.files.insert(live_path(&segment_id), file);
                let meta = SegmentMeta {
                    segment_id,
                    realm_id: REALM,
                    segment_kind: 'k',
                    page_count,
                    total_bytes,
                };
                SegmentEvent::Sealed(self.answer("seal", meta))
            }
            SegmentAction::Replace { name, old_segment_id, new_meta } => {
                let link = Link {
                    segment_id: new_meta.segment_id,
                    page_count: new_meta.page_count,
                    total_bytes: new_meta.total_bytes,
                };
                let answer = self.answer("replace", ());
                if answer.is_ok() {
                    self.log.push(format!("published {name}"));
                    self.files.remove(&live_path(&old_segment_id));
                    self.catalog.insert(key(name.as_bytes()), link);
                }
                SegmentEvent::Replaced(answer)
            }
        }
    }

    fn work(&mut self, action: Action<'_, char>) -> Event<char, &'static str> {
        match action {
            Action::EnsureUsable => Event::Usable(self.answer("usable", ())),
            Action::RequireMode { operation, mode, capability } => {
                assert_eq!(operation, "compaction");
                assert_eq!(mode, DbMode::Standalone);
                assert_eq!(capability, ModeCapability::StoreMaintenance);
                Event::ModeAllowed(self.answer("mode", ()))
            }
            Action::LockWriter => {
                self.log.push("lock writer".to_string());
                Event::WriterLocked
            }
            Action::CloseReaderAdmission => {
                self.log.push("close admission".to_string());
                Event::ReaderAdmissionClosed
            }
            Action::ClearFreePageCache => {
                self.log.push("clear cache".to_string());
                Event::FreePageCacheCleared
            }
            Action::CountReaders => {
                self.log.push("count readers".to_string());
                Event::ReadersCounted(self.readers)
            }
            Action::ReadFreeListRoot => {
                self.log.push("free list root".to_string());
                Event::FreeListRoot(self.free_list_root)
            }
            Action::DenseRepack => {
                let gain = self.gain;
                Event::DenseRepacked(self.answer("dense repack", gain))
            }
            Action::FetchSegmentRows { cursor } => {
                let rows = self.rows(cursor);
                self.log.push(format!("rows at {cursor:?}"));
                Event::SegmentRows(self.answer("rows", rows))
            }
            Action::Segment(action) => Event::Segment(self.segment(action)),
            Action::ReopenReaderAdmission => {
                self.log.push("reopen admission".to_string());
                Event::ReaderAdmissionReopened
            }
            Action::UnlockWriter => {
                self.log.push("unlock writer".to_string());
                Event::WriterUnlocked
            }
        }
    }

    fn compact(&mut self) -> Result<CompactStats, Error> {
        let mut pass: Pass = compact_now(CompactOptions {
            segment_row_kind: KIND,
            segment_row_batch: self.batch,
            mmap_view_scratch_bytes: 4096,
        });
        loop {
            let event = match pass.next_action() {
                Some(action) => self.work(action),
                None => break,
            };
            pass = taken(pass, event);
            self.answers += 1;
        }
        match pass.into_outcome() {
            Ok(result) => result,
            Err(_) => panic!("no work left, and no outcome"),
        }
    }

    fn page(&self, name: &[u8], page_id: u64) -> &[u8] {
        &self.files[&live_path(&self.catalog[&key(name)].segment_id)].pages[&page_id]
    }

    /// The last work asked for, but for letting readers in and giving the lock back.
    fn last_work(&self) -> &str {
        let releases = ["reopen admission", "unlock writer"];
        self.log.iter().rev().find(|line| !releases.contains(&line.as_str())).unwrap()
    }

    fn count(&self, work: &str) -> usize {
        self.log.iter().filter(|line| line.as_str() == work).count()
    }
}

#[test]
fn compaction_says_when_a_pinned_reader_stopped_it() {
    let mut db = Store::new();

    let quiet = db.compact().expect("compaction with no readers");
    assert!(!quiet.declined_readers_pinned, "nothing pinned the range, so nothing declined");

    db.readers = 1;
    let declined = db.compact().expect("compaction under a reader");
    assert!(
        declined.declined_readers_pinned,
        "a pinned reader stops compaction, and the result must say so"
    );
    assert_eq!(declined.main_db_pages_reclaimed, 0);
    assert_eq!(declined.bytes_truncated, 0);
    assert_eq!(declined.segments_repacked, 0);
}

#[test]
fn compact_now_surfaces_live_segment_open_error_then_retry_succeeds() {
    let mut db = Store::new();
    db.link(key(b"compact-open"), 9, 12_288, 12_288, &[Some(b"compact-reader")]);

    db.fault = Some(("measure", PagedbError::Other("PermissionDenied")));
    let err = db.compact().expect_err("compact_now must not skip live segment open I/O errors");
    assert_eq!(err, PagedbError::Other("PermissionDenied"));

    db.compact().expect("retry after transient compact segment-open fault must succeed");
    assert!(db.page(b"compact-open", 1).starts_with(b"compact-reader"));
}

#[test]
fn dense_repack_error_surfaces() {
    let mut db = Store::new();
    db.free_list_root = 12;
    db.link(key(b"a"), 9, 1000, 10, &[Some(b"x")]);
    db.fault = Some(("dense repack", PagedbError::Other("DurablyCommittedButUnpublished")));
    let err = db.compact().expect_err("dense repack failures must surface");
    assert_eq!(err, PagedbError::Other("DurablyCommittedButUnpublished"));
    assert_eq!(db.last_work(), "dense repack");
}

#[test]
fn declining_still_clears_the_cache_under_both_locks() {
    let mut db = Store::new();
    db.readers = 3;
    db.free_list_root = 12;
    let stats = db.compact().unwrap();
    assert!(stats.declined_readers_pinned);
    assert_eq!(
        db.log,
        vec![
            "usable",
            "mode",
            "lock writer",
            "usable",
            "close admission",
            "clear cache",
            "count readers",
            "reopen admission",
            "unlock writer"
        ]
    );
}

#[test]
fn a_store_that_became_unusable_gets_its_lock_back() {
    let pass = start();
    let pass = taken(pass, Event::Usable(Ok(())));
    let pass = taken(pass, Event::ModeAllowed(Ok(())));
    let pass = taken(pass, Event::WriterLocked);
    let pass = taken(pass, Event::Usable(Err(PagedbError::Other("poisoned"))));
    assert!(matches!(pass.next_action(), Some(Action::UnlockWriter)));
    let pass = taken(pass, Event::WriterUnlocked);
    match pass.into_outcome() {
        Ok(result) => assert_eq!(result.unwrap_err(), PagedbError::Other("poisoned")),
        Err(_) => panic!("the pass has ended"),
    }
}

#[test]
fn admission_and_lock_are_given_back_last_and_in_order() {
    let mut db = Store::new();
    db.free_list_root = 1;
    db.link(key(b"a"), 1, 1000, 100, &[Some(b"page")]);
    db.compact().unwrap();
    assert_eq!(db.count("lock writer"), 1);
    assert_eq!(db.count("close admission"), 1);
    assert_eq!(db.count("clear cache"), 1);
    assert_eq!(db.count("count readers"), 1);
    let n = db.log.len();
    assert_eq!(db.log[n - 2], "reopen admission");
    assert_eq!(db.log[n - 1], "unlock writer");
    assert_eq!(db.count("reopen admission"), 1);
    assert_eq!(db.count("unlock writer"), 1);
}

#[test]
fn the_count_is_that_of_the_segments_over_the_limit() {
    let mut db = Store::new();
    db.batch = 2;
    let sizes: [u64; 5] = [105, 106, 100, 1000, 0];
    for (i, size) in sizes.iter().enumerate() {
        db.link(key(&[b'a' + i as u8]), i as u8 + 1, *size, 100, &[Some(b"page")]);
    }
    let linked: Vec<Vec<u8>> = db.catalog.keys().cloned().collect();
    assert_eq!(db.compact().unwrap().segments_repacked, 2);
    let still_linked: Vec<Vec<u8>> = db.catalog.keys().cloned().collect();
    assert_eq!(still_linked, linked);
    assert_eq!(db.count("published b"), 1);
    assert_eq!(db.count("published d"), 1);
    for i in 0..5u8 {
        assert_eq!(db.page(&[b'a' + i], 1), b"page");
    }
}

#[test]
fn a_pass_takes_no_more_answers_than_its_bound() {
    let mut db = Store::new();
    db.batch = 1;
    db.free_list_root = 1;
    let pages: [Option<&[u8]>; 2] = [Some(b"one"), Some(b"two")];
    db.link(key(b"a"), 1, 1000, 100, &pages);
    db.link(key(b"b"), 2, 1000, 100, &pages);
    db.compact().unwrap();
    assert_eq!(db.answers, 2 * (2 * 2 + 7) + 3 + 11);
}

#[test]
fn a_dense_store_is_not_rewritten() {
    let mut db = Store::new();
    db.gain = DenseRepack { pages_reclaimed: 5, bytes_truncated: 20_480 };
    let stats = db.compact().unwrap();
    assert_eq!(db.count("dense repack"), 0);
    assert_eq!(stats.main_db_pages_reclaimed, 0);
    assert_eq!(stats.bytes_truncated, 0);
    assert_eq!(stats.segments_repacked, 0);
    assert!(!stats.declined_readers_pinned);
}

#[test]
fn a_free_list_has_the_store_repacked() {
    let mut db = Store::new();
    db.free_list_root = 1;
    db.gain = DenseRepack { pages_reclaimed: 5, bytes_truncated: 20_480 };
    let stats = db.compact().unwrap();
    assert_eq!(db.count("dense repack"), 1);
    assert_eq!(stats.main_db_pages_reclaimed, 5);
    assert_eq!(stats.bytes_truncated, 20_480);
    assert_eq!(stats.segments_repacked, 0);
}

#[test]
fn the_store_is_repacked_at_most_once_however_the_pass_ends() {
    let faults = [
        None,
        Some(("dense repack", PagedbError::NotFound)),
        Some(("measure", PagedbError::NotFound)),
    ];
    for fault in faults {
        let mut db = Store::new();
        db.free_list_root = 1;
        db.link(key(b"a"), 1, 1000, 100, &[Some(b"one")]);
        db.link(key(b"b"), 2, 1000, 100, &[Some(b"two")]);
        let fails = fault.is_some();
        db.fault = fault;
        assert_eq!(db.compact().is_err(), fails);
        assert_eq!(db.count("dense repack"), 1);
        assert_eq!(db.log[7], "free list root");
        assert_eq!(db.log[8], "dense repack");
        assert_eq!(db.page(b"a", 1), b"one");
        assert_eq!(db.page(b"b", 1), b"two");
    }
}

#[test]
fn a_wasteful_segment_is_copied_and_republished_under_its_name() {
    let mut db = Store::new();
    let pages: [Option<&[u8]>; 4] = [Some(b"one"), Some(b"two"), None, Some(b"four")];
    db.link(key(b"logs"), 9, 106, 100, &pages);
    let stats = db.compact().unwrap();
    assert_eq!(stats.segments_repacked, 1);
    assert_eq!(db.count("published logs"), 1);
    assert_eq!(db.catalog[&key(b"logs")].segment_id, [0xf1; 16]);
    assert_eq!(db.catalog[&key(b"logs")].page_count, 5);
    assert_eq!(db.page(b"logs", 1), b"one");
    assert_eq!(db.page(b"logs", 2), b"two");
    assert_eq!(db.page(b"logs", 3), b"four");
    assert!(!db.files.contains_key(&live_path(&[9; 16])));

    let stats = db.compact().unwrap();
    assert_eq!(stats.segments_repacked, 0, "a second pass finds nothing to do");
}

#[test]
fn a_lean_segment_is_only_measured() {
    let mut db = Store::new();
    db.link(key(b"logs"), 9, 105, 100, &[Some(b"one")]);
    let stats = db.compact().unwrap();
    assert_eq!(stats.segments_repacked, 0);
    assert_eq!(db.last_work(), "measure");
    assert_eq!(db.catalog[&key(b"logs")].segment_id, [9; 16]);
}

#[test]
fn a_lean_segment_under_a_malformed_key_is_skipped() {
    let mut db = Store::new();
    db.link(vec![KIND, 2], 9, 100, 100, &[]);
    assert_eq!(db.compact().unwrap().segments_repacked, 0);
}

#[test]
fn a_malformed_key_stops_the_pass_before_anything_is_written() {
    let mut db = Store::new();
    let mut other_realm = key(b"logs");
    other_realm[5] = 2;
    db.link(other_realm, 9, 1000, 100, &[Some(b"one")]);
    assert_eq!(db.compact().unwrap_err(), PagedbError::MalformedSegmentKey);
    assert_eq!(db.last_work(), "measure");
}

#[test]
fn a_name_that_is_no_text_is_read_with_replacements() {
    let mut db = Store::new();
    db.link(key(b"a\xffb"), 9, 1000, 100, &[]);
    db.compact().unwrap();
    assert_eq!(db.count("published a\u{fffd}b"), 1);
}

#[test]
fn keys_that_are_not_published_may_hold_anything() {
    let mut db = Store::new();
    db.batch = 1;
    db.link(vec![KIND, 0], 1, 100, 100, &[]);
    db.link(key(b"a\xffb"), 2, 105, 100, &[]);
    db.link(key(b"logs"), 3, 1000, 100, &[]);
    let keys: Vec<Vec<u8>> = db.catalog.keys().cloned().collect();
    assert_eq!(db.compact().unwrap().segments_repacked, 1);
    assert_eq!(db.count("measure"), 3);
    assert_eq!(db.catalog.keys().cloned().collect::<Vec<_>>(), keys);
    assert_eq!(db.catalog[&vec![KIND, 0]].segment_id, [1; 16]);
    assert_eq!(db.catalog[&key(b"a\xffb")].segment_id, [2; 16]);
    assert_eq!(db.catalog[&key(b"logs")].segment_id, [0xf1; 16]);
}

#[test]
fn a_malformed_key_stops_the_pass_only_where_a_repack_is_due() {
    for (size, due) in [(105, false), (106, true)] {
        let mut db = Store::new();
        db.link(vec![KIND, 2], 9, size, 100, &[]);
        let result = db.compact();
        assert_eq!(result.err(), if due { Some(PagedbError::MalformedSegmentKey) } else { None });
        assert_eq!(db.last_work(), "measure");
    }
}

#[test]
fn a_name_beyond_ascii_is_kept() {
    let mut db = Store::new();
    db.link(key("größe".as_bytes()), 9, 1000, 100, &[]);
    db.compact().unwrap();
    assert_eq!(db.count("published größe"), 1);
    assert_eq!(db.catalog.len(), 1, "the replacement is linked under the same key");
}

#[test]
fn every_error_surfaces_as_it_is() {
    let works: [&'static str; 12] = [
        "usable",
        "mode",
        "dense repack",
        "rows",
        "measure",
        "open reader",
        "mkdir",
        "draw id",
        "create writer",
        "append page",
        "seal",
        "replace",
    ];
    for work in works {
        for absent in [false, true] {
            let mut db = Store::new();
            db.free_list_root = 1;
            db.link(key(b"logs"), 9, 1000, 100, &[Some(b"one"), Some(b"two")]);
            let expected = if absent { PagedbError::NotFound } else { PagedbError::Other("disk") };
            let fault = if absent { PagedbError::NotFound } else { PagedbError::Other("disk") };
            db.fault = Some((work, fault));
            assert_eq!(db.compact().unwrap_err(), expected, "{work}");
            assert_eq!(db.last_work(), work);
            assert_eq!(db.count("published logs"), 0);
            assert_eq!(db.catalog[&key(b"logs")].segment_id, [9; 16]);
            assert_eq!(db.count("lock writer"), db.count("unlock writer"), "{work}");
            assert_eq!(db.count("close admission"), db.count("reopen admission"), "{work}");
        }
    }
}

#[test]
fn a_page_that_cannot_be_read_stops_the_pass() {
    let mut db = Store::new();
    db.link(key(b"logs"), 9, 1000, 100, &[Some(b"one")]);
    db.fault = Some(("read page", PagedbError::Other("checksum")));
    assert_eq!(db.compact().unwrap_err(), PagedbError::Other("checksum"));
    assert_eq!(db.count("append page"), 0);
}

#[test]
fn segments_without_data_pages_are_sealed_empty() {
    for page_count in [0, 1, 2] {
        let mut db = Store::new();
        db.link(key(b"logs"), 9, 1000, 100, &[]);
        db.catalog.get_mut(&key(b"logs")).unwrap().page_count = page_count;
        assert_eq!(db.compact().unwrap().segments_repacked, 1);
        assert_eq!(db.count("read page"), 0);
        assert_eq!(db.count("seal"), 1);
    }
}

#[test]
fn every_segment_is_visited_once_over_many_batches() {
    let mut db = Store::new();
    db.batch = 2;
    let names: [&[u8]; 5] = [b"a", b"a\0", b"b", b"ba", b"c"];
    for (i, name) in names.iter().enumerate() {
        db.link(key(name), i as u8 + 1, 1000, 100, &[Some(b"page")]);
    }
    let stats = db.compact().unwrap();
    assert_eq!(stats.segments_repacked, 5);
    let published: Vec<&String> = db.log.iter().filter(|l| l.starts_with("published ")).collect();
    assert_eq!(
        published,
        vec!["published a", "published a\0", "published b", "published ba", "published c"]
    );
    let asked: Vec<&String> = db.log.iter().filter(|l| l.starts_with("rows at ")).collect();
    let behind = |name: &[u8]| {
        let mut cursor = key(name);
        cursor.push(0);
        format!("rows at {cursor:?}")
    };
    assert_eq!(
        asked,
        vec![&format!("rows at {:?}", [KIND]), &behind(b"a\0"), &behind(b"ba")]
    );
}

#[test]
fn a_full_last_batch_is_followed_by_an_empty_one() {
    let mut db = Store::new();
    db.batch = 2;
    for (i, name) in [b"a", b"b"].iter().enumerate() {
        db.link(key(*name), i as u8 + 1, 100, 100, &[]);
    }
    db.compact().unwrap();
    assert_eq!(db.count("rows"), 2);
    assert_eq!(db.count("measure"), 2);
}

#[test]
fn a_later_failure_drops_the_report_but_not_the_work() {
    let mut db = Store::new();
    db.link(key(b"a"), 1, 1000, 100, &[]);
    db.link(vec![KIND, 9], 2, 1000, 100, &[]);
    assert_eq!(db.compact().unwrap_err(), PagedbError::MalformedSegmentKey);
    assert_eq!(db.count("published a"), 1);
}

fn start() -> Pass {
    compact_now(CompactOptions {
        segment_row_kind: KIND,
        segment_row_batch: 64,
        mmap_view_scratch_bytes: 4096,
    })
}

fn taken(pass: Pass, event: Event<char, &'static str>) -> Pass {
    match pass.resume(event) {
        Ok(next) => next,
        Err((_, event)) => panic!("refused {event:?}"),
    }
}

#[test]
fn an_answer_to_another_question_is_handed_back() {
    let pass = start();
    let pass = match pass.resume(Event::WriterLocked) {
        Ok(_) => panic!("nobody asked for the lock yet"),
        Err((pass, event)) => {
            assert!(matches!(event, Event::WriterLocked));
            pass
        }
    };
    assert!(matches!(pass.next_action(), Some(Action::EnsureUsable)));
    let segment = Event::Segment(SegmentEvent::Replaced(Ok(())));
    assert!(pass.resume(segment).is_err());
}

#[test]
fn an_ended_pass_takes_no_answer() {
    let pass = match start().resume(Event::Usable(Err(PagedbError::Other("poisoned")))) {
        Ok(pass) => pass,
        Err(_) => panic!("the answer was asked for"),
    };
    assert!(pass.next_action().is_none());
    let pass = match pass.resume(Event::Usable(Ok(()))) {
        Ok(_) => panic!("the pass has ended"),
        Err((pass, _)) => pass,
    };
    match pass.into_outcome() {
        Ok(result) => assert_eq!(result.unwrap_err(), PagedbError::Other("poisoned")),
        Err(_) => panic!("the pass has ended"),
    }
}

#[test]
fn a_pass_at_work_has_no_outcome() {
    match start().into_outcome() {
        Ok(_) => panic!("nothing has been done yet"),
        Err(pass) => assert!(matches!(pass.next_action(), Some(Action::EnsureUsable))),
    }
}
