//! Fuzzing sessions.
use coverage_fuzzer::mutation::MutationStrategy;
use coverage_fuzzer::orchestrator::{
    check_differential_discrepancy, CoverageFuzzer, FuzzSession, FuzzerConfig, StepOutcome,
};
use coverage_fuzzer::persistent_vm::{ExecutionOutcome, StubVmBackend};
use coverage_fuzzer::wasm_instrumenter::WasmInstrumentError;

fn minimal_wasm() -> Vec<u8> {
    let mut m = b"\0asm".to_vec();
    m.extend_from_slice(&1u32.to_le_bytes());
    m.push(10);
    m.push(20);
    m.extend_from_slice(&[0u8; 20]);
    m
}

fn larger_wasm() -> Vec<u8> {
    let mut wasm = b"\0asm".to_vec();
    wasm.extend_from_slice(&1u32.to_le_bytes());
    wasm.push(10);
    wasm.extend_from_slice(&[0xD0, 0x0F]);
    wasm.extend_from_slice(&[0u8; 2000]);
    wasm
}

fn quick_config() -> FuzzerConfig {
    FuzzerConfig {
        wasm_bytes: minimal_wasm(),
        timeout_ns: Some(500_000_000),
        max_executions: Some(200),
        corpus_dir: None,
        seed: Some(42),
        verbose: false,
        target_functions: Vec::new(),
    }
}

fn outcome(value: Option<Vec<u8>>) -> ExecutionOutcome {
    let mut out = ExecutionOutcome::crashed("e".to_string(), 1);
    out.success = true;
    out.error = None;
    out.return_value = value;
    out
}

#[test]
fn run_completes_within_budget() {
    let mut fuzzer = CoverageFuzzer::new(quick_config());
    let report = fuzzer.run();
    assert!(report.total_executions <= 200, "should not exceed max_executions");
    assert!(report.total_executions > 0, "should have executed at least one input");
}

#[test]
fn corpus_grows_during_run() {
    let mut fuzzer = CoverageFuzzer::new(quick_config());
    let report = fuzzer.run();
    assert!(report.corpus_entries >= 6, "corpus should have at least the seed entries");
}

#[test]
fn coverage_increases_from_zero() {
    let mut fuzzer = CoverageFuzzer::new(quick_config());
    let report = fuzzer.run();
    assert!(report.total_edges_found > 0, "should discover at least one edge");
    let density =
        report.coverage_density.numerator as f64 / report.coverage_density.denominator as f64;
    assert!(density > 0.0);
}

#[test]
fn report_eps_is_positive() {
    let mut fuzzer = CoverageFuzzer::new(quick_config());
    let report = fuzzer.run();
    let eps = report.executions_per_second.numerator as f64
        / report.executions_per_second.denominator as f64;
    assert!(eps > 0.0);
}

#[test]
fn strategy_effectiveness_populated() {
    let mut fuzzer = CoverageFuzzer::new(quick_config());
    let report = fuzzer.run();
    let total_interesting: u64 = report.strategy_effectiveness.iter().sum();
    assert!(total_interesting > 0, "at least one strategy should find new coverage");
    assert_eq!(report.corpus_entries as u64, 6 + total_interesting);
}

#[test]
fn no_crashes_on_stub_backend() {
    let mut fuzzer = CoverageFuzzer::new(quick_config());
    let report = fuzzer.run();
    assert_eq!(report.unique_crashes, 0, "stub should not produce crashes");
}

#[test]
fn seeding_covers_the_basic_types() {
    let session = FuzzSession::begin(&quick_config(), Vec::new(), StubVmBackend::new());
    let labels: Vec<String> =
        session.corpus.entries().iter().map(|e| e.label.clone().unwrap()).collect();
    assert_eq!(labels, vec!["I128", "Address", "Bool", "Bytes", "U64", "Symbol"]);
    for (i, entry) in session.corpus.entries().iter().enumerate() {
        assert_eq!(entry.id, i);
        assert_eq!(entry.origin, "seed_auto");
        assert_eq!(entry.execution_time_ns, 1_000_000);
        assert!(entry.new_edges_discovered >= 1);
    }
    assert_eq!(session.coverage.total_edges(), 1);
}

#[test]
fn the_binary_is_analysed() {
    let session = FuzzSession::begin(&quick_config(), Vec::new(), StubVmBackend::new());
    assert_eq!(session.instrumentation.unwrap().blocks_instrumented, 1);
    let mut config = quick_config();
    config.wasm_bytes = Vec::new();
    let empty = FuzzSession::begin(&config, Vec::new(), StubVmBackend::new());
    assert_eq!(empty.instrumentation.unwrap_err(), WasmInstrumentError::TooShort);
}

#[test]
fn given_seeds_replace_the_generated_ones() {
    let seeds = vec![(vec![1, 2, 3], Some("a".to_string())), (vec![4], None)];
    let session = FuzzSession::begin(&quick_config(), seeds, StubVmBackend::new());
    assert_eq!(session.corpus.len(), 2);
    assert_eq!(session.corpus.entries()[0].bytes, vec![1, 2, 3]);
    assert_eq!(session.corpus.entries()[1].origin, "seed");
    assert_eq!(session.coverage.total_edges(), 0);
}

#[test]
fn a_seed_replays_the_inputs() {
    let mut a = FuzzSession::begin(&quick_config(), Vec::new(), StubVmBackend::new());
    let mut b = FuzzSession::begin(&quick_config(), Vec::new(), StubVmBackend::new());
    for _ in 0..50 {
        let (x, s) = a.next_input();
        let (y, t) = b.next_input();
        assert_eq!(x, y);
        assert_eq!(s, t);
    }
}

#[test]
fn budgets_end_a_session() {
    let mut session = FuzzSession::begin(&quick_config(), Vec::new(), StubVmBackend::new());
    assert!(!session.is_over(0));
    assert!(session.is_over(500_000_000));
    session.executions = 200;
    assert!(session.is_over(0));
    session.executions = 0;
    session.failed = true;
    assert!(session.is_over(0));
}

#[test]
fn unlimited_session_ends_with_its_counters() {
    let mut config = quick_config();
    config.timeout_ns = None;
    config.max_executions = None;
    let mut session = FuzzSession::begin(&config, Vec::new(), StubVmBackend::new());
    assert!(!session.is_over(u64::MAX));
    session.executions = u64::MAX - 1;
    assert!(!session.is_over(0));
    session.executions = u64::MAX;
    assert!(session.is_over(0));
    session.executions = 0;
    session.mutator.stats.total_mutations = u64::MAX - 129;
    assert!(!session.is_over(0));
    session.mutator.stats.total_mutations = u64::MAX - 128;
    assert!(session.is_over(0));
}

#[test]
fn new_edges_join_the_corpus() {
    let mut config = quick_config();
    config.wasm_bytes = larger_wasm();
    let mut session = FuzzSession::begin(&config, Vec::new(), StubVmBackend::new());
    let before = session.coverage.total_edges();
    let size = session.corpus.len();
    let input = vec![1u8, 2, 3, 4, 5, 6, 7, 8, 9];
    let plain = outcome(Some(vec![1]));
    let (interesting, reported) =
        session.absorb(input.clone(), MutationStrategy::Splice, &plain, 3_000_000);
    assert!(interesting && !reported);
    let found = session.coverage.total_edges() - before;
    assert!(found > 0);
    let entry = &session.corpus.entries()[size];
    assert_eq!(entry.bytes, input);
    assert_eq!(entry.new_edges_discovered, found);
    assert_eq!(entry.origin, "splice");
    assert_eq!(entry.execution_time_ns, 3_000_000);
    assert_eq!(session.effectiveness[12], 1);
    assert_eq!(session.dashboard.status.corpus_stats.size, size + 1);
    // The same input reaches nothing new.
    let again = session.absorb(input, MutationStrategy::Splice, &plain, 1);
    assert_eq!(again, (false, false));
    assert_eq!(session.corpus.len(), size + 1);
    assert_eq!(session.executions, 2);
}

#[test]
fn discrepancies_join_the_corpus() {
    let mut session = FuzzSession::begin(&quick_config(), Vec::new(), StubVmBackend::new());
    let odd = outcome(Some(vec![1, 0xff]));
    let result = session.absorb(vec![9], MutationStrategy::Havoc, &odd, 1);
    assert_eq!(result, (true, false));
    assert_eq!(session.corpus.entries()[6].new_edges_discovered, 0);
    assert!(check_differential_discrepancy(&odd));
    assert!(!check_differential_discrepancy(&outcome(Some(vec![1, 2]))));
    assert!(!check_differential_discrepancy(&outcome(None)));
}

#[test]
fn crashes_are_reported_once() {
    let mut session = FuzzSession::begin(&quick_config(), Vec::new(), StubVmBackend::new());
    let mut backend_error = ExecutionOutcome::crashed("trap at 0x1".to_string(), 5);
    let first = session.absorb(b"abc".to_vec(), MutationStrategy::Havoc, &backend_error, 1);
    assert!(first.1);
    backend_error.error = Some("trap at 0x2".to_string());
    let second = session.absorb(b"xyz".to_vec(), MutationStrategy::Havoc, &backend_error, 1);
    assert!(!second.1);
    backend_error.error = None;
    let third = session.absorb(b"".to_vec(), MutationStrategy::Havoc, &backend_error, 1);
    assert!(third.1);
    assert_eq!(session.crash_reports.len(), 2);
    assert_eq!(session.crash_reports[0].minimal_input, b"a".to_vec());
    assert_eq!(session.crash_reports[1].raw_error, "unknown error");
    assert_eq!(session.dashboard.status.total_crashes, 3);
    assert_eq!(session.dashboard.status.unique_crashes, 2);
    let report = session.finish_at(2_000_000_000);
    assert_eq!(report.unique_crashes, 2);
    assert_eq!(report.total_crashes, 3);
    assert_eq!(report.total_executions, 3);
    assert_eq!(report.executions_per_second.numerator, 3_000_000_000);
    assert_eq!(report.executions_per_second.denominator, 2_000_000_000);
}

#[test]
fn a_crashing_machine_is_triaged() {
    let mut backend = StubVmBackend::new();
    backend.always_crash = true;
    let mut session = FuzzSession::begin(&quick_config(), Vec::new(), backend);
    for i in 0..10 {
        match session.step() {
            StepOutcome::Executed { reported, .. } => assert_eq!(reported, i == 0),
            StepOutcome::ResetFailed(_) => panic!("the stub can be reset"),
        }
    }
    let report = session.finish_at(0);
    assert_eq!(report.unique_crashes, 1);
    assert_eq!(report.total_crashes, 10);
    assert_eq!(report.crash_reports[0].normalised_error, "stub: forced crash");
    assert_eq!(report.executions_per_second.numerator, 0);
}

#[test]
fn a_step_names_its_stage() {
    let mut session = FuzzSession::begin(&quick_config(), Vec::new(), StubVmBackend::new());
    match session.step() {
        StepOutcome::Executed { strategy, .. } => {
            assert_eq!(session.dashboard.status.current_stage, strategy.name());
        }
        StepOutcome::ResetFailed(_) => panic!("the stub can be reset"),
    }
    assert_eq!(session.vm.total_executions, 1);
    assert_eq!(session.vm.reset_count, 1);
}

#[test]
fn defaults_of_a_run() {
    let config = FuzzerConfig::default();
    assert_eq!(config.timeout_ns, Some(60_000_000_000));
    assert_eq!(config.max_executions, None);
    assert!(config.wasm_bytes.is_empty() && config.target_functions.is_empty());
    assert!(!config.verbose && config.seed.is_none() && config.corpus_dir.is_none());
}

#[test]
fn no_executions_without_a_budget() {
    let mut config = quick_config();
    config.max_executions = Some(0);
    let report = CoverageFuzzer::new(config).run();
    assert_eq!(report.total_executions, 0);
    assert_eq!(report.corpus_entries, 6);
}

#[test]
fn generated_seeds_are_well_typed() {
    for seed in 0..200 {
        let mut config = quick_config();
        config.seed = Some(seed);
        let session = FuzzSession::begin(&config, Vec::new(), StubVmBackend::new());
        for entry in session.corpus.entries() {
            let text = String::from_utf8(entry.bytes.clone()).unwrap();
            let start = format!("{{\"{}\":", entry.label.clone().unwrap());
            assert!(text.starts_with(&start), "{}", text);
        }
    }
}

#[test]
fn times_are_read_from_the_clock() {
    let mut session = FuzzSession::begin(&quick_config(), Vec::new(), StubVmBackend::new());
    let start = session.dashboard.status.session_start;
    let before = session.time_ns();
    for _ in 0..20 {
        session.step();
    }
    let after = session.time_ns();
    assert!(before <= after);
    assert_eq!(session.dashboard.status.session_start, start);
    assert!(session.dashboard.status.last_new_coverage_ns <= after);
    let report = CoverageFuzzer::new(quick_config()).run();
    assert!(report.session_duration_ns > 0);
}

#[test]
fn seeds_with_fresh_edges_are_counted() {
    let session = FuzzSession::begin(&quick_config(), Vec::new(), StubVmBackend::new());
    assert_eq!(session.coverage.stats().interesting_inputs, 1);
    let given = vec![(vec![1], None)];
    let session = FuzzSession::begin(&quick_config(), given, StubVmBackend::new());
    assert_eq!(session.coverage.stats().interesting_inputs, 0);
}

#[test]
fn settings_and_reports_are_copied() {
    let config = quick_config();
    let copy = config.clone();
    assert_eq!(copy.wasm_bytes, config.wasm_bytes);
    assert_eq!(copy.seed, config.seed);
    let report = CoverageFuzzer::new(config).run();
    let copy = report.clone();
    assert_eq!(copy.total_executions, report.total_executions);
    assert_eq!(copy.strategy_effectiveness, report.strategy_effectiveness);
}
