//! The dashboard and base 64.
use coverage_fuzzer::corpus::CorpusStats;
use coverage_fuzzer::coverage_map::{CoverageMap, ExecutionCoverage};
use coverage_fuzzer::dashboard::{base64_encode, FuzzerDashboard, FuzzerStatus};
use coverage_fuzzer::ratio::Ratio;

#[test]
fn tick_increments_executions() {
    let mut dash = FuzzerDashboard::new(None);
    for _ in 0..10 {
        dash.tick();
    }
    assert_eq!(dash.status.total_executions, 10);
}

#[test]
fn crash_tracking() {
    let mut dash = FuzzerDashboard::new(None);
    dash.record_crash(true);
    dash.record_crash(true);
    dash.record_crash(false);
    let s = &dash.status;
    assert_eq!(s.unique_crashes, 2);
    assert_eq!(s.total_crashes, 3);
}

#[test]
fn stage_updates() {
    let mut dash = FuzzerDashboard::new(None);
    dash.set_stage("bit_flip_1");
    assert_eq!(dash.status.current_stage, "bit_flip_1");
}

#[test]
fn base64_encodes_correctly() {
    assert_eq!(base64_encode(b"Man"), "TWFu");
    assert_eq!(base64_encode(b"Ma"), "TWE=");
    assert_eq!(base64_encode(b"M"), "TQ==");
}

#[test]
fn base64_of_all_digits() {
    assert_eq!(base64_encode(b""), "");
    let bytes: Vec<u8> = vec![
        0x00, 0x10, 0x83, 0x10, 0x51, 0x87, 0x20, 0x92, 0x8b, 0x30, 0xd3, 0x8f, 0x41, 0x14, 0x93,
        0x51, 0x55, 0x97, 0x61, 0x96, 0x9b, 0x71, 0xd7, 0x9f, 0x82, 0x18, 0xa3, 0x92, 0x59, 0xa7,
        0xa2, 0x9a, 0xab, 0xb2, 0xdb, 0xaf, 0xc3, 0x1c, 0xb3, 0xd3, 0x5d, 0xb7, 0xe3, 0x9e, 0xbb,
        0xf3, 0xdf, 0xbf,
    ];
    assert_eq!(
        base64_encode(&bytes),
        "ABCDEFGHIJKLMNOPQRSTUVWXYZabcdefghijklmnopqrstuvwxyz0123456789+/"
    );
}

#[test]
fn rate_of_a_window() {
    let mut status = FuzzerStatus::new(None);
    status.tick_at(10);
    status.tick_at(999_999_999);
    assert_eq!(status.executions_this_window, 2);
    assert_eq!(status.executions_per_second, Ratio { numerator: 0, denominator: 1 });
    status.tick_at(1_500_000_000);
    assert_eq!(status.total_executions, 3);
    assert_eq!(status.executions_this_window, 0);
    assert_eq!(status.window_start_ns, 1_500_000_000);
    assert_eq!(
        status.executions_per_second,
        Ratio { numerator: 3_000_000_000, denominator: 1_500_000_000 }
    );
}

#[test]
fn snapshot_at_a_time() {
    let mut dash = FuzzerDashboard::new(Some(3_600_000_000_000));
    let mut map = CoverageMap::new();
    let mut exec = ExecutionCoverage::new();
    exec.record_edge(0);
    map.merge(&exec);
    dash.update_coverage(map.stats(), map.bitmap_snapshot());
    let figures = CorpusStats {
        size: 3,
        avg_input_bytes: 4,
        avg_exec_ms: 5,
        total_weight: 6,
        max_performance_score: 7,
    };
    dash.update_corpus_stats(figures);
    dash.status.record_new_coverage_at(2_000);
    dash.set_stage("havoc");
    let snap = dash.status.snapshot_at(5_000);
    assert_eq!(snap.since_new_coverage_ns, 3_000);
    assert_eq!(snap.until_timeout_ns, Some(3_599_999_995_000));
    assert_eq!(snap.session_duration_ns, 5_000);
    assert_eq!(snap.corpus_size, 3);
    assert_eq!(snap.corpus_stats, figures);
    assert_eq!(snap.coverage.total_edges, 1);
    assert_eq!(snap.current_stage, "havoc");
    assert!(snap.coverage_bitmap_b64.starts_with("AQAA"));
    assert_eq!(snap.coverage_bitmap_b64.len(), 87384);
    let late = dash.status.snapshot_at(u64::MAX);
    assert_eq!(late.until_timeout_ns, Some(0));
}

#[test]
fn the_session_start_does_not_move() {
    let dash = FuzzerDashboard::new(None);
    let first = dash.snapshot();
    let second = dash.snapshot();
    assert_eq!(first.session_start_unix, second.session_start_unix);
    assert!(first.session_start_unix > 1_500_000_000);
    assert!(first.session_duration_ns <= second.session_duration_ns);
    assert_eq!(first.until_timeout_ns, None);
    assert_eq!(first.current_stage, "initializing");
}

#[test]
fn new_coverage_is_noted() {
    let mut dash = FuzzerDashboard::new(None);
    dash.status.last_new_coverage_ns = u64::MAX;
    dash.record_new_coverage();
    assert!(dash.status.last_new_coverage_ns < u64::MAX);
}
