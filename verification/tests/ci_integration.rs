//! Continuous integration.
use coverage_fuzzer::ci_integration::{FuzzCiConfig, FuzzCiResult, FuzzCiRunner, SetupFailure};
use coverage_fuzzer::orchestrator::{CoverageFuzzer, FuzzerReport};
use coverage_fuzzer::ratio::Ratio;

fn minimal_wasm() -> Vec<u8> {
    let mut m = b"\0asm".to_vec();
    m.extend_from_slice(&1u32.to_le_bytes());
    m.push(10);
    m.push(20);
    m.extend_from_slice(&[0u8; 20]);
    m
}

fn report(crashes: usize, edges: usize) -> FuzzerReport {
    FuzzerReport {
        total_executions: 1000,
        corpus_entries: 17,
        unique_crashes: crashes,
        total_crashes: 9,
        coverage_density: Ratio { numerator: edges as u128, denominator: 65536 },
        total_edges_found: edges,
        session_duration_ns: 5,
        executions_per_second: Ratio { numerator: 0, denominator: 1 },
        crash_reports: Vec::new(),
        strategy_effectiveness: vec![0; 15],
    }
}

#[test]
fn missing_wasm_returns_setup_error() {
    let config = FuzzCiConfig::new("nonexistent.wasm".to_string(), 10, "corpus".to_string());
    let result = FuzzCiRunner::new(config).refuse(SetupFailure::WasmMissing);
    assert_eq!(result.exit_code, 2);
    assert!(result.summary.contains("not found"));
}

#[test]
fn valid_wasm_runs_and_exits_cleanly() {
    let mut config = FuzzCiConfig::new("contract.wasm".to_string(), 2, "corpus".to_string());
    config.verbose = false;
    config.seed = Some(1234);
    let runner = FuzzCiRunner::new(config);
    let mut settings = runner.fuzzer_config(minimal_wasm());
    settings.corpus_dir = None;
    let mut fuzzer = CoverageFuzzer::new(settings);
    let result = FuzzCiResult::success(fuzzer.run(), "corpus".to_string());
    assert!(result.exit_code <= 1, "exit code should be 0 or 1");
    assert!(result.total_executions > 0);
    assert_eq!(result.exit_code, 0);
}

#[test]
fn github_actions_snippet_contains_corpus_path() {
    let config = FuzzCiConfig::new(
        "target/contract.wasm".to_string(),
        3600,
        "./fuzz-corpus".to_string(),
    );
    let snippet = FuzzCiRunner::new(config).github_actions_cache_config();
    assert!(snippet.contains("fuzz-corpus"));
    assert!(snippet.contains("3600"));
}

#[test]
fn github_actions_snippet_in_full() {
    let config = FuzzCiConfig::new("w.wasm".to_string(), 60, "c".to_string());
    let expected = r#"      - name: Restore fuzzing corpus
        uses: actions/cache@v4
        with:
          path: c
          key: fuzz-corpus-${{ hashFiles('w.wasm') }}
          restore-keys: |
            fuzz-corpus-

      - name: Run coverage-guided fuzzer
        run: |
          cargo run --bin soroban-scanner -- fuzz \
            --timeout 60 \
            --corpus-dir c \
            --wasm w.wasm

      - name: Save fuzzing corpus
        if: always()
        uses: actions/cache/save@v4
        with:
          path: c
          key: fuzz-corpus-${{ hashFiles('w.wasm') }}-${{ github.run_id }}
"#;
    assert_eq!(FuzzCiRunner::new(config).github_actions_cache_config(), expected);
}

#[test]
fn summary_of_a_report() {
    let clean = FuzzCiResult::success(report(0, 100), "dir".to_string());
    assert_eq!(clean.exit_code, 0);
    assert_eq!(
        clean.summary,
        "Fuzzing complete: 1000 executions, 0 unique crashes, 17 corpus entries, 0.15% edge coverage"
    );
    assert_eq!(clean.corpus_dir, "dir");
    assert_eq!(clean.total_executions, 1000);
    let dirty = FuzzCiResult::success(report(3, 65536), "dir".to_string());
    assert_eq!(dirty.exit_code, 1);
    assert_eq!(dirty.unique_crashes, 3);
    assert_eq!(dirty.report.unwrap().total_crashes, 9);
    assert!(dirty.summary.ends_with("100.00% edge coverage"));
}

#[test]
fn percentages_are_rounded_as_printed_numbers_are() {
    for edges in 0..=65536usize {
        let result = FuzzCiResult::success(report(0, edges), String::new());
        let printed = format!("{:.2}% edge coverage", edges as f64 / 65536.0 * 100.0);
        assert!(result.summary.ends_with(&format!(", {}", printed)), "{}", edges);
    }
}

#[test]
fn setup_failures_in_words() {
    let config = FuzzCiConfig::new("a.wasm".to_string(), 10, "dir".to_string());
    let runner = FuzzCiRunner::new(config);
    let missing = runner.refuse(SetupFailure::WasmMissing);
    assert_eq!(missing.summary, "Setup error: WASM file not found: a.wasm");
    assert_eq!(missing.corpus_dir, "dir");
    assert!(missing.report.is_none());
    let unread = runner.refuse(SetupFailure::WasmUnreadable("denied".to_string()));
    assert_eq!(unread.summary, "Setup error: Failed to read WASM: denied");
    let undone = runner.refuse(SetupFailure::CorpusDirFailed("full".to_string()));
    assert_eq!(undone.summary, "Setup error: Failed to create corpus dir: full");
    assert_eq!(undone.exit_code, 2);
}

#[test]
fn settings_of_the_fuzzer() {
    let mut config = FuzzCiConfig::new("a.wasm".to_string(), 10, "dir".to_string());
    config.target_functions = vec!["transfer(address,i128)".to_string()];
    let mut runner = FuzzCiRunner::new(config);
    let fuzzer = runner.fuzzer_config(vec![1, 2]);
    assert_eq!(fuzzer.wasm_bytes, vec![1, 2]);
    assert_eq!(fuzzer.timeout_ns, Some(10_000_000_000));
    assert_eq!(fuzzer.max_executions, None);
    assert_eq!(fuzzer.corpus_dir, Some("dir".to_string()));
    assert_eq!(fuzzer.target_functions, vec!["transfer(address,i128)".to_string()]);
    assert!(fuzzer.verbose);
    runner.config.max_executions = 7;
    runner.config.timeout_ns = u128::MAX;
    let limited = runner.fuzzer_config(vec![]);
    assert_eq!(limited.max_executions, Some(7));
    assert_eq!(limited.timeout_ns, Some(u64::MAX));
}

#[test]
fn parts_of_a_second_are_held() {
    let mut config = FuzzCiConfig::new("a.wasm".to_string(), u64::MAX, "dir".to_string());
    assert_eq!(config.timeout_ns, u64::MAX as u128 * 1_000_000_000);
    config.timeout_ns = 1_500_000_000;
    let runner = FuzzCiRunner::new(config.clone());
    assert_eq!(runner.fuzzer_config(vec![]).timeout_ns, Some(1_500_000_000));
    assert!(runner.github_actions_cache_config().contains("--timeout 1 "));
    config.timeout_ns = 500_000_000;
    assert_eq!(FuzzCiRunner::new(config).fuzzer_config(vec![]).timeout_ns, Some(500_000_000));
}
