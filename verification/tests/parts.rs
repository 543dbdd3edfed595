use pagedb_compaction::catalog::{resume_cursor, validate_segment_key, SegmentMeta, SegmentRow};
use pagedb_compaction::errors::PagedbError;
use pagedb_compaction::options::CompactOptions;
use pagedb_compaction::paths::{live_path, staging_dir};
use pagedb_compaction::segment::{
    exceeds_garbage_limit, publication, SegmentAction, SegmentEvent, SegmentOutcome, SegmentRepack,
};

fn meta(realm: u8) -> SegmentMeta<()> {
    SegmentMeta {
        segment_id: [7; 16],
        realm_id: [realm; 16],
        segment_kind: (),
        page_count: 3,
        total_bytes: 100,
    }
}

fn name_of(kind: u8, key: &[u8], realm: u8) -> Result<Vec<u8>, PagedbError<()>> {
    validate_segment_key(kind, key, &meta(realm)).map(|name| name.to_vec())
}

#[test]
fn live_path_is_lower_case_hex() {
    let id = [
        0x00, 0x01, 0x0f, 0x10, 0x7f, 0x80, 0x9a, 0xab, 0xbc, 0xcd, 0xde, 0xef, 0xf0, 0xff, 0x45,
        0x23,
    ];
    assert_eq!(live_path(&id), "seg/00010f107f809aabbccddeeff0ff4523");
    assert_eq!(live_path(&[7; 16]), "seg/07070707070707070707070707070707");
}

#[test]
fn live_paths_differ_with_the_id() {
    assert_ne!(live_path(&[0x01; 16]), live_path(&[0x10; 16]));
}

#[test]
fn staging_dir_path() {
    assert_eq!(staging_dir(), "seg/.staging");
}

#[test]
fn garbage_limit_is_five_percent() {
    assert!(!exceeds_garbage_limit(105, 100));
    assert!(exceeds_garbage_limit(106, 100));
    assert!(!exceeds_garbage_limit(21, 20));
    assert!(exceeds_garbage_limit(22, 20));
    assert!(!exceeds_garbage_limit(19, 19));
    assert!(exceeds_garbage_limit(20, 19));
}

#[test]
fn garbage_limit_at_the_ends() {
    assert!(!exceeds_garbage_limit(0, 0));
    assert!(exceeds_garbage_limit(1, 0));
    assert!(!exceeds_garbage_limit(0, u64::MAX));
    assert!(!exceeds_garbage_limit(u64::MAX, u64::MAX));
    assert!(exceeds_garbage_limit(u64::MAX, u64::MAX / 2));
}

#[test]
fn segment_key_gives_its_name() {
    let mut key = vec![4u8];
    key.extend_from_slice(&[1; 16]);
    assert_eq!(name_of(4, &key, 1), Ok(vec![]));
    key.extend_from_slice(b"logs");
    assert_eq!(name_of(4, &key, 1), Ok(b"logs".to_vec()));
}

#[test]
fn malformed_segment_keys_are_refused() {
    let mut key = vec![4u8];
    key.extend_from_slice(&[1; 16]);
    key.extend_from_slice(b"logs");
    assert_eq!(name_of(5, &key, 1), Err(PagedbError::MalformedSegmentKey));
    assert_eq!(name_of(4, &key, 2), Err(PagedbError::MalformedSegmentKey));
    assert_eq!(name_of(4, &key[..16], 1), Err(PagedbError::MalformedSegmentKey));
    assert_eq!(name_of(4, &[], 1), Err(PagedbError::MalformedSegmentKey));
    key[16] = 0;
    assert_eq!(name_of(4, &key, 1), Err(PagedbError::MalformedSegmentKey));
}

#[test]
fn cursor_resumes_right_behind_a_key() {
    assert_eq!(resume_cursor(&[]), vec![0]);
    assert_eq!(resume_cursor(b"ab"), b"ab\0".to_vec());
    assert!(b"ab".to_vec() < resume_cursor(b"ab"));
    assert!(resume_cursor(b"ab") <= b"ab\0".to_vec());
    assert!(resume_cursor(b"ab") < b"ac".to_vec());
}

#[test]
fn publication_names_old_and_new() {
    let new_meta = meta(3);
    match publication("logs".to_string(), [9; 16], &new_meta) {
        SegmentAction::Replace { name, old_segment_id, new_meta } => {
            assert_eq!(name, "logs");
            assert_eq!(old_segment_id, [9; 16]);
            assert_eq!(new_meta.realm_id, [3; 16]);
        }
        other => panic!("{other:?}"),
    }
}

fn repack() -> SegmentRepack<(), &'static str> {
    let mut key = vec![4u8];
    key.extend_from_slice(&[1; 16]);
    key.extend_from_slice(b"logs");
    let options = CompactOptions {
        segment_row_kind: 4,
        segment_row_batch: 1,
        mmap_view_scratch_bytes: 0,
    };
    SegmentRepack::new(options, SegmentRow { key, meta: meta(1) })
}

fn taken(
    repack: SegmentRepack<(), &'static str>,
    event: SegmentEvent<(), &'static str>,
) -> SegmentRepack<(), &'static str> {
    match repack.resume(event) {
        Ok(next) => next,
        Err((_, event)) => panic!("refused {event:?}"),
    }
}

#[test]
fn a_repack_takes_two_answers_per_page_and_seven_besides() {
    let answers = vec![
        SegmentEvent::Measured(Ok(200)),
        SegmentEvent::ReaderOpened(Ok(())),
        SegmentEvent::StagingDirMade(Ok(())),
        SegmentEvent::SegmentIdDrawn(Ok([2; 16])),
        SegmentEvent::WriterCreated(Ok(())),
        SegmentEvent::PageRead(Ok(b"page".to_vec())),
        SegmentEvent::PageAppended(Ok(())),
        SegmentEvent::Sealed(Ok(meta(1))),
        SegmentEvent::Replaced(Ok(())),
    ];
    let mut repack = repack();
    for answer in answers {
        assert!(repack.next_action().is_some());
        repack = taken(repack, answer);
    }
    assert!(repack.next_action().is_none());
    match repack.into_outcome() {
        Ok(outcome) => assert_eq!(outcome, SegmentOutcome::Repacked),
        Err(_) => panic!("the repack has ended"),
    }
}

#[test]
fn a_repack_refuses_what_it_did_not_ask_for() {
    let repack = repack();
    let repack = match repack.resume(SegmentEvent::Sealed(Ok(meta(1)))) {
        Ok(_) => panic!("nothing to seal yet"),
        Err((repack, event)) => {
            assert!(matches!(event, SegmentEvent::Sealed(Ok(_))));
            repack
        }
    };
    match repack.into_outcome() {
        Ok(_) => panic!("the repack has not ended"),
        Err(repack) => assert!(matches!(
            repack.next_action(),
            Some(SegmentAction::Measure { .. })
        )),
    }
}

#[test]
fn a_lean_segment_ends_at_its_size() {
    let repack = taken(repack(), SegmentEvent::Measured(Ok(105)));
    match repack.into_outcome() {
        Ok(outcome) => assert_eq!(outcome, SegmentOutcome::Skipped),
        Err(_) => panic!("the repack has ended"),
    }
}
