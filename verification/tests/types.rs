use pagedb_compaction::types::{CompactBudget, CompactProgress, CompactStats};

#[test]
fn default_budget() {
    let budget = CompactBudget::default();
    assert_eq!(budget.max_pages_relocated, 256);
    assert_eq!(budget.max_duration_ms, 500);
}

#[test]
fn explicit_budget() {
    let budget = CompactBudget::new(7, u64::MAX);
    assert_eq!(budget.max_pages_relocated, 7);
    assert_eq!(budget.max_duration_ms, u64::MAX);
}

#[test]
fn default_progress_is_complete() {
    let progress = CompactProgress::default();
    assert_eq!(progress.pages_relocated, 0);
    assert_eq!(progress.bytes_freed, 0);
    assert!(!progress.more_work);
    assert_eq!(progress.watermark, None);
}

#[test]
fn default_stats_report_no_work_and_no_refusal() {
    let stats = CompactStats::default();
    assert_eq!(stats.main_db_pages_reclaimed, 0);
    assert_eq!(stats.segments_repacked, 0);
    assert_eq!(stats.bytes_truncated, 0);
    assert!(!stats.declined_readers_pinned);
}
