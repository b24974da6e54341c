//! Fuzzing as a step of continuous integration.
//!
//! A run ends with an exit code: 0 without crashes, 1 with crashes, and 2 if it
//! could not be set up. The corpus directory is kept between runs, so that
//! coverage adds up.
use crate::coverage_map::{density_of, COVERAGE_MAP_SIZE};
use crate::orchestrator::{FuzzerConfig, FuzzerReport};
use crate::text::{append_chars, append_number, as_chars, chars_of, digits};
use vstd::prelude::*;
use vstd::string::*;

verus! {

/// Settings of a run.
#[derive(Debug, Clone)]
pub struct FuzzCiConfig {
    /// Path of the binary under test.
    pub wasm_path: String,
    /// Time budget, in nanoseconds.
    pub timeout_ns: u128,
    /// Directory of the corpus.
    pub corpus_dir: String,
    /// Maximum number of executions; zero for no maximum.
    pub max_executions: u64,
    /// Whether to print progress.
    pub verbose: bool,
    /// Seed for replay.
    pub seed: Option<u64>,
    /// Functions to fuzz, as `name(type,type,...)`.
    pub target_functions: Vec<String>,
}

impl FuzzCiConfig {
    /// Settings with a budget of whole seconds alone.
    pub fn new(wasm_path: String, timeout_secs: u64, corpus_dir: String) -> (config: Self)
        ensures
            config.wasm_path == wasm_path,
            config.timeout_ns == timeout_secs * 1_000_000_000,
            config.corpus_dir == corpus_dir,
            config.max_executions == 0,
            config.verbose,
            config.seed is None,
            config.target_functions@.len() == 0,
    {
        FuzzCiConfig {
            wasm_path,
            timeout_ns: timeout_secs as u128 * 1_000_000_000,
            corpus_dir,
            max_executions: 0,
            verbose: true,
            seed: None,
            target_functions: Vec::new(),
        }
    }
}

/// The result of a run.
#[derive(Debug, Clone)]
pub struct FuzzCiResult {
    /// The exit code.
    pub exit_code: i32,
    /// Summary in words.
    pub summary: String,
    /// The report of the fuzzer, if it ran.
    pub report: Option<FuzzerReport>,
    /// Directory of the corpus.
    pub corpus_dir: String,
    /// Number of executed inputs.
    pub total_executions: u64,
    /// Number of unique crashes.
    pub unique_crashes: usize,
}

/// Hundredths of a percent of the coverage map, rounded to the nearest and from
/// the middle to the even one.
pub open spec fn coverage_hundredths(edges: nat) -> nat {
    let whole = edges * 10000 / COVERAGE_MAP_SIZE as nat;
    let rest = edges * 10000 % COVERAGE_MAP_SIZE as nat;
    if 2 * rest > COVERAGE_MAP_SIZE || (2 * rest == COVERAGE_MAP_SIZE && whole % 2 == 1) {
        whole + 1
    } else {
        whole
    }
}

/// A number of hundredths with its two decimals.
pub open spec fn two_decimals(hundredths: nat) -> Seq<char> {
    as_chars(digits(hundredths / 100)) + seq!['.'] + as_chars(digits(hundredths / 10 % 10))
        + as_chars(digits(hundredths % 10))
}

/// The summary of a report.
pub open spec fn summary_of(report: FuzzerReport) -> Seq<char> {
    "Fuzzing complete: "@ + as_chars(digits(report.total_executions as nat)) + " executions, "@
        + as_chars(digits(report.unique_crashes as nat)) + " unique crashes, "@ + as_chars(
        digits(report.corpus_entries as nat),
    ) + " corpus entries, "@ + two_decimals(coverage_hundredths(report.total_edges_found as nat))
        + "% edge coverage"@
}

/// The density in a report is that of its edges.
pub open spec fn density_agrees(report: FuzzerReport) -> bool {
    &&& report.total_edges_found <= COVERAGE_MAP_SIZE
    &&& report.coverage_density == density_of(report.total_edges_found as nat)
}

/// Why a run could not be set up.
#[derive(Debug)]
pub enum SetupFailure {
    /// There is no binary at its path.
    WasmMissing,
    /// The binary could not be read.
    WasmUnreadable(String),
    /// The corpus directory could not be made.
    CorpusDirFailed(String),
}

/// The failure in words.
pub open spec fn failure_text(failure: SetupFailure, wasm_path: Seq<char>) -> Seq<char> {
    match failure {
        SetupFailure::WasmMissing => "WASM file not found: "@ + wasm_path,
        SetupFailure::WasmUnreadable(error) => "Failed to read WASM: "@ + error@,
        SetupFailure::CorpusDirFailed(error) => "Failed to create corpus dir: "@ + error@,
    }
}

/// Appends a number of hundredths with its two decimals.
fn append_two_decimals(text: &mut String, hundredths: u64)
    ensures
        final(text)@ == old(text)@ + two_decimals(hundredths as nat),
{
    append_number(text, (hundredths / 100) as u128);
    text.push('.');
    append_number(text, (hundredths / 10 % 10) as u128);
    append_number(text, (hundredths % 10) as u128);
    assert(text@ =~= old(text)@ + two_decimals(hundredths as nat));
}

/// Appends a text.
fn append_text(text: &mut String, more: &str)
    ensures
        final(text)@ == old(text)@ + more@,
{
    append_chars(text, chars_of(more).as_slice());
}

impl FuzzCiResult {
    /// The result of a run that the fuzzer completed.
    pub fn success(report: FuzzerReport, corpus_dir: String) -> (result: Self)
        requires
            density_agrees(report),
        ensures
            result.exit_code == (if report.unique_crashes > 0 {
                1int
            } else {
                0
            }),
            result.summary@ == summary_of(report),
            result.report == Some(report),
            result.corpus_dir == corpus_dir,
            result.total_executions == report.total_executions,
            result.unique_crashes == report.unique_crashes,
    {
        let edges: u64 = report.total_edges_found as u64;
        let size: u64 = COVERAGE_MAP_SIZE as u64;
        let whole: u64 = edges * 10000 / size;
        let rest: u64 = edges * 10000 % size;
        let hundredths: u64 = if 2 * rest > size || (2 * rest == size && whole % 2 == 1) {
            whole + 1
        } else {
            whole
        };
        assert(hundredths == coverage_hundredths(edges as nat));
        let mut summary: String = String::from_str("Fuzzing complete: ");
        append_number(&mut summary, report.total_executions as u128);
        append_text(&mut summary, " executions, ");
        append_number(&mut summary, report.unique_crashes as u128);
        append_text(&mut summary, " unique crashes, ");
        append_number(&mut summary, report.corpus_entries as u128);
        append_text(&mut summary, " corpus entries, ");
        append_two_decimals(&mut summary, hundredths);
        append_text(&mut summary, "% edge coverage");
        FuzzCiResult {
            exit_code: if report.unique_crashes > 0 {
                1
            } else {
                0
            },
            summary,
            total_executions: report.total_executions,
            unique_crashes: report.unique_crashes,
            report: Some(report),
            corpus_dir,
        }
    }

    /// The result of a run that could not be set up.
    pub fn setup_error(message: &str, corpus_dir: String) -> (result: Self)
        ensures
            result.exit_code == 2,
            result.summary@ == "Setup error: "@ + message@,
            result.report is None,
            result.corpus_dir == corpus_dir,
            result.total_executions == 0,
            result.unique_crashes == 0,
    {
        let mut summary: String = String::from_str("Setup error: ");
        append_text(&mut summary, message);
        FuzzCiResult {
            exit_code: 2,
            summary,
            report: None,
            corpus_dir,
            total_executions: 0,
            unique_crashes: 0,
        }
    }
}

/// The workflow steps that restore the corpus, run the fuzzer, and save the
/// corpus.
pub open spec fn workflow(corpus: Seq<char>, wasm: Seq<char>, timeout: nat) -> Seq<char> {
    "      - name: Restore fuzzing corpus\n        uses: actions/cache@v4\n        with:\n          path: "@
        + corpus + "\n          key: fuzz-corpus-${{ hashFiles('"@ + wasm
        + "') }}\n          restore-keys: |\n            fuzz-corpus-\n\n      - name: Run coverage-guided fuzzer\n        run: |\n          cargo run --bin soroban-scanner -- fuzz \\\n            --timeout "@
        + as_chars(digits(timeout)) + " \\\n            --corpus-dir "@ + corpus
        + " \\\n            --wasm "@ + wasm
        + "\n\n      - name: Save fuzzing corpus\n        if: always()\n        uses: actions/cache/save@v4\n        with:\n          path: "@
        + corpus + "\n          key: fuzz-corpus-${{ hashFiles('"@ + wasm
        + "') }}-${{ github.run_id }}\n"@
}

/// Runs the fuzzer in continuous integration.
pub struct FuzzCiRunner {
    /// Settings.
    pub config: FuzzCiConfig,
}

impl FuzzCiRunner {
    /// A runner.
    pub fn new(config: FuzzCiConfig) -> (runner: Self)
        ensures
            runner.config == config,
    {
        FuzzCiRunner { config }
    }

    /// The result of a run that could not be set up.
    pub fn refuse(&self, failure: SetupFailure) -> (result: FuzzCiResult)
        ensures
            result.exit_code == 2,
            result.summary@ == "Setup error: "@ + failure_text(failure, self.config.wasm_path@),
            result.report is None,
            result.corpus_dir@ == self.config.corpus_dir@,
            result.total_executions == 0,
            result.unique_crashes == 0,
    {
        let mut message: String = match &failure {
            SetupFailure::WasmMissing => String::from_str("WASM file not found: "),
            SetupFailure::WasmUnreadable(_) => String::from_str("Failed to read WASM: "),
            SetupFailure::CorpusDirFailed(_) => String::from_str("Failed to create corpus dir: "),
        };
        match &failure {
            SetupFailure::WasmMissing => append_text(&mut message, self.config.wasm_path.as_str()),
            SetupFailure::WasmUnreadable(error) => append_text(&mut message, error.as_str()),
            SetupFailure::CorpusDirFailed(error) => append_text(&mut message, error.as_str()),
        }
        FuzzCiResult::setup_error(message.as_str(), self.config.corpus_dir.clone())
    }

    /// The settings of the fuzzer for a binary.
    pub fn fuzzer_config(&self, wasm_bytes: Vec<u8>) -> (config: FuzzerConfig)
        ensures
            config.wasm_bytes == wasm_bytes,
            config.timeout_ns == Some(
                if self.config.timeout_ns > u64::MAX {
                    u64::MAX
                } else {
                    self.config.timeout_ns as u64
                },
            ),
            config.max_executions == (if self.config.max_executions == 0 {
                None
            } else {
                Some(self.config.max_executions)
            }),
            config.corpus_dir matches Some(dir) && dir@ == self.config.corpus_dir@,
            config.seed == self.config.seed,
            config.verbose == self.config.verbose,
            config.target_functions@.len() == self.config.target_functions@.len(),
            forall|i: int|
                0 <= i < config.target_functions@.len() ==> (
                #[trigger] config.target_functions@[i])@ == self.config.target_functions@[i]@,
    {
        let nanos: u128 = self.config.timeout_ns;
        let mut targets: Vec<String> = Vec::new();
        let mut i: usize = 0;
        while i < self.config.target_functions.len()
            invariant
                i <= self.config.target_functions@.len(),
                targets@.len() == i,
                forall|k: int|
                    0 <= k < i ==> (#[trigger] targets@[k])@
                        == self.config.target_functions@[k]@,
            decreases self.config.target_functions@.len() - i,
        {
            targets.push(self.config.target_functions[i].clone());
            i = i + 1;
        }
        FuzzerConfig {
            wasm_bytes,
            timeout_ns: Some(
                if nanos > u64::MAX as u128 {
                    u64::MAX
                } else {
                    nanos as u64
                },
            ),
            max_executions: if self.config.max_executions == 0 {
                None
            } else {
                Some(self.config.max_executions)
            },
            corpus_dir: Some(self.config.corpus_dir.clone()),
            seed: self.config.seed,
            verbose: self.config.verbose,
            target_functions: targets,
        }
    }

    /// The workflow steps that restore the corpus, run the fuzzer, and save the
    /// corpus.
    pub fn github_actions_cache_config(&self) -> (text: String)
        ensures
            text@ == workflow(
                self.config.corpus_dir@,
                self.config.wasm_path@,
                self.config.timeout_ns as nat / 1_000_000_000,
            ),
    {
        let corpus: &str = self.config.corpus_dir.as_str();
        let wasm: &str = self.config.wasm_path.as_str();
        let mut text: String = String::from_str(
            "      - name: Restore fuzzing corpus\n        uses: actions/cache@v4\n        with:\n          path: ",
        );
        append_text(&mut text, corpus);
        append_text(&mut text, "\n          key: fuzz-corpus-${{ hashFiles('");
        append_text(&mut text, wasm);
        append_text(
            &mut text,
            "') }}\n          restore-keys: |\n            fuzz-corpus-\n\n      - name: Run coverage-guided fuzzer\n        run: |\n          cargo run --bin soroban-scanner -- fuzz \\\n            --timeout ",
        );
        append_number(&mut text, self.config.timeout_ns / 1_000_000_000);
        append_text(&mut text, " \\\n            --corpus-dir ");
        append_text(&mut text, corpus);
        append_text(&mut text, " \\\n            --wasm ");
        append_text(&mut text, wasm);
        append_text(
            &mut text,
            "\n\n      - name: Save fuzzing corpus\n        if: always()\n        uses: actions/cache/save@v4\n        with:\n          path: ",
        );
        append_text(&mut text, corpus);
        append_text(&mut text, "\n          key: fuzz-corpus-${{ hashFiles('");
        append_text(&mut text, wasm);
        append_text(&mut text, "') }}-${{ github.run_id }}\n");
        text
    }
}

}
