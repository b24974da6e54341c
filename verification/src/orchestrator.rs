//! The fuzzing session: all parts of the fuzzer wired together.
//!
//! A step of the session selects a corpus entry or generates a value, mutates
//! it, executes it, and takes in what came of it: an input that reaches new edges
//! joins the corpus, and a crash goes to triage.
use crate::clock::{measured, present, read_since, time_since};
use crate::corpus::{
    choice_depends_on_scores, same_scores, weighted_choice, Corpus, CorpusEntry, NANOS_PER_MILLI,
};
use crate::coverage_map::{
    all_counted, density_of, hit_slots, list_has_length, lists, merge_counts_new_edges, no_counts,
    slots_are_finite, CoverageMap, EdgeId, ExecutionCoverage, COVERAGE_MAP_SIZE,
};
use crate::crash_triage::{
    copy_label, label_view, took_in, CrashInfo, CrashReport, CrashTriageConfig, CrashTriageEngine,
};
use crate::dashboard::{FuzzerDashboard, FuzzerStatus};
use crate::delta_debug::{answers, minimised, Budget};
use crate::input_gen::{
    fits, generated, typed, InputGenConfig, SorobanInputGen, SorobanValueType,
};
use crate::mutation::{
    drawn_strategy, mutated, tallied, tally_sum, tally_sum_update, tally_sum_zeros,
    MutationScheduler, MutationStrategy,
    MutatorConfig, MutatorModel, STRATEGY_COUNT,
};
use crate::persistent_vm::{
    ExecutionOutcome, PersistentVm, StubVmBackend, VmBackend, VmResetError,
};
use crate::ratio::{Ratio, FRACTION_UNIT};
use crate::rng::{chanced, picked, seeded, FuzzRng, RngState};
use crate::values::{json_of, SorobanValue};
use crate::wasm_instrumenter::{
    block_count, code_fits, code_size, sections_of, walk_edges, walk_length,
    InstrumentationStats, WasmInstrumentError, WasmInstrumenter,
};
use std::time::Instant;
use vstd::bytes::{spec_u64_from_le_bytes, u64_from_le_bytes};
use vstd::prelude::*;
use vstd::slice::*;
use vstd::string::*;

verus! {

/// Time limit of a single execution, in nanoseconds.
pub const EXECUTION_LIMIT_NS: u64 = 30_000_000_000;

/// Settings of a fuzzing run.
#[derive(Debug, Clone)]
pub struct FuzzerConfig {
    /// The binary under test.
    pub wasm_bytes: Vec<u8>,
    /// Time budget, in nanoseconds; without one only executions are counted.
    pub timeout_ns: Option<u64>,
    /// Maximum number of executions; without one only time is counted.
    pub max_executions: Option<u64>,
    /// Where the corpus is kept; without one it is kept in memory.
    pub corpus_dir: Option<String>,
    /// Seed for replay; without one the operating system seeds the session.
    pub seed: Option<u64>,
    /// Whether to print progress.
    pub verbose: bool,
    /// Functions to fuzz; none stands for all.
    pub target_functions: Vec<String>,
}

impl Default for FuzzerConfig {
    fn default() -> (config: Self)
        ensures
            config.wasm_bytes@.len() == 0,
            config.timeout_ns == Some(60_000_000_000u64),
            config.max_executions is None,
            config.corpus_dir is None,
            config.seed is None,
            !config.verbose,
            config.target_functions@.len() == 0,
    {
        FuzzerConfig {
            wasm_bytes: Vec::new(),
            timeout_ns: Some(60_000_000_000),
            max_executions: None,
            corpus_dir: None,
            seed: None,
            verbose: false,
            target_functions: Vec::new(),
        }
    }
}

/// What came of a fuzzing run.
#[derive(Debug, Clone)]
pub struct FuzzerReport {
    /// Number of executed inputs.
    pub total_executions: u64,
    /// Number of corpus entries.
    pub corpus_entries: usize,
    /// Number of unique crashes.
    pub unique_crashes: usize,
    /// Number of crashes, duplicates included.
    pub total_crashes: u64,
    /// Share of the coverage map that was reached.
    pub coverage_density: Ratio,
    /// Number of edges that were reached.
    pub total_edges_found: usize,
    /// Duration of the session, in nanoseconds.
    pub session_duration_ns: u64,
    /// Executions per second.
    pub executions_per_second: Ratio,
    /// A report of each unique crash.
    pub crash_reports: Vec<CrashReport>,
    /// How many interesting inputs each mutation operator produced, by its place.
    pub strategy_effectiveness: Vec<u64>,
}

/// The binary is small enough: its size can be computed with, and its blocks can
/// be numbered.
pub open spec fn fuzzable(wasm: Seq<u8>) -> bool {
    &&& wasm.len() <= isize::MAX
    &&& block_count(code_size(sections_of(wasm))) % 0x1_0000_0000 != 0
}

/// Binaries below 64 GiB are small enough.
pub proof fn usual_binaries_are_fuzzable(wasm: Seq<u8>)
    requires
        wasm.len() <= isize::MAX,
        wasm.len() < 0x10_0000_0000,
    ensures
        fuzzable(wasm),
{
    code_fits(wasm, 8);
}

/// The slots that an execution with a seed reaches.
pub open spec fn reached(wasm: Seq<u8>, seed: u64) -> Set<int> {
    let blocks = block_count(code_size(sections_of(wasm)));
    hit_slots(
        all_counted(
            no_counts(),
            walk_edges(seed, (blocks % 0x1_0000_0000) as u32, walk_length(blocks)),
        ),
    )
}

/// The seed that an input stands for: its first eight bytes in little-endian
/// order, or zero if it is shorter.
pub open spec fn coverage_seed(input: Seq<u8>) -> u64 {
    if input.len() < 8 {
        0
    } else {
        spec_u64_from_le_bytes(input.take(8))
    }
}

/// The seed that an input stands for.
fn seed_of(input: &[u8]) -> (seed: u64)
    ensures
        seed == coverage_seed(input@),
{
    if input.len() < 8 {
        0
    } else {
        let head: &[u8] = slice_subrange(input, 0, 8);
        assert(head@ =~= input@.take(8));
        u64_from_le_bytes(head)
    }
}

/// The outcome hints at a difference between versions: the returned value holds
/// the byte 255.
pub open spec fn discrepant(outcome: ExecutionOutcome) -> bool {
    outcome.return_value matches Some(v) && v@.contains(0xffu8)
}

/// Whether an outcome hints at a difference between versions.
pub fn check_differential_discrepancy(outcome: &ExecutionOutcome) -> (found: bool)
    ensures
        found == discrepant(*outcome),
{
    match &outcome.return_value {
        None => false,
        Some(value) => {
            let mut i: usize = 0;
            while i < value.len()
                invariant
                    outcome.return_value == Some(*value),
                    i <= value@.len(),
                    forall|k: int| 0 <= k < i ==> value@[k] != 0xff,
                decreases value@.len() - i,
            {
                if value[i] == 0xff {
                    assert(value@[i as int] == 0xff);
                    return true;
                }
                i = i + 1;
            }
            false
        },
    }
}

/// The types of the values that an empty corpus is seeded with.
pub open spec fn seed_types() -> Seq<SorobanValueType> {
    seq![
        SorobanValueType::I128,
        SorobanValueType::Address,
        SorobanValueType::Bool,
        SorobanValueType::Bytes,
        SorobanValueType::U64,
        SorobanValueType::Symbol,
    ]
}

/// The names of these types.
pub open spec fn seed_names() -> Seq<Seq<char>> {
    seq!["I128"@, "Address"@, "Bool"@, "Bytes"@, "U64"@, "Symbol"@]
}

/// The state of the generator after so many seeds.
pub open spec fn seeding_state(config: InputGenConfig, s: RngState, count: nat) -> RngState
    decreases count,
{
    if count == 0 {
        s
    } else {
        typed(
            seed_types()[count - 1],
            0,
            config,
            seeding_state(config, s, (count - 1) as nat),
        ).1
    }
}

/// The slots seen after so many seeds.
pub open spec fn seeding_seen(wasm: Seq<u8>, seen: Set<int>, count: nat) -> Set<int>
    decreases count,
{
    if count == 0 {
        seen
    } else {
        seeding_seen(wasm, seen, (count - 1) as nat).union(reached(wasm, (count - 1) as u64))
    }
}

/// How many of so many seeds reach slots that were not seen before them.
pub open spec fn seeding_finds(wasm: Seq<u8>, seen: Set<int>, count: nat) -> nat
    decreases count,
{
    if count == 0 {
        0
    } else {
        let before = seeding_seen(wasm, seen, (count - 1) as nat);
        seeding_finds(wasm, seen, (count - 1) as nat) + (if reached(
            wasm,
            (count - 1) as u64,
        ).difference(before).len() > 0 {
            1nat
        } else {
            0
        })
    }
}

/// The entry is the seed with a number: a well-typed value, executed in a
/// millisecond, with the edges that it reached first and one at the least.
pub open spec fn is_seed(
    entry: CorpusEntry,
    wasm: Seq<u8>,
    config: InputGenConfig,
    s: RngState,
    seen: Set<int>,
    number: nat,
) -> bool {
    let value = typed(
        seed_types()[number as int],
        0,
        config,
        seeding_state(config, s, number),
    ).0;
    let fresh = reached(wasm, number as u64).difference(seeding_seen(wasm, seen, number)).len();
    &&& fits(value, seed_types()[number as int], 0, config)
    &&& entry.made_from(
        json_of(value),
        NANOS_PER_MILLI,
        if fresh == 0 {
            1
        } else {
            fresh
        },
        Some(seed_names()[number as int]),
        "seed_auto"@,
        number,
    )
}

/// The types of the values that an empty corpus is seeded with, and their names.
fn seed_schema() -> (schema: Vec<(SorobanValueType, String)>)
    ensures
        schema@.len() == 6,
        forall|i: int|
            0 <= i < 6 ==> (#[trigger] schema@[i]).0 == seed_types()[i] && schema@[i].1@
                == seed_names()[i],
{
    let mut schema: Vec<(SorobanValueType, String)> = Vec::new();
    schema.push((SorobanValueType::I128, String::from_str("I128")));
    schema.push((SorobanValueType::Address, String::from_str("Address")));
    schema.push((SorobanValueType::Bool, String::from_str("Bool")));
    schema.push((SorobanValueType::Bytes, String::from_str("Bytes")));
    schema.push((SorobanValueType::U64, String::from_str("U64")));
    schema.push((SorobanValueType::Symbol, String::from_str("Symbol")));
    schema
}

/// Executes the binary with a seed, and merges the coverage.
fn cover(wasm: &Vec<u8>, seed: u64, coverage: &mut CoverageMap) -> (new: Vec<EdgeId>)
    requires
        fuzzable(wasm@),
        old(coverage).wf(),
    ensures
        final(coverage).wf(),
        new@.len() == reached(wasm@, seed).difference(old(coverage)@.seen).len(),
        lists(new@, reached(wasm@, seed).difference(old(coverage)@.seen)),
        final(coverage)@.seen == old(coverage)@.seen.union(reached(wasm@, seed)),
        final(coverage)@.interesting == old(coverage)@.interesting + (if new@.len() > 0 {
            1nat
        } else {
            0
        }),
        final(coverage)@.seen.len() == old(coverage)@.seen.len() + new@.len(),
        final(coverage)@.seen.len() > 0,
{
    let executed: ExecutionCoverage = WasmInstrumenter::new().simulate_coverage(
        wasm.as_slice(),
        seed,
    );
    let new: Vec<EdgeId> = coverage.merge(&executed);
    proof {
        let hits = reached(wasm@, seed);
        assert(executed.hits() == hits);
        slots_are_finite(hits, COVERAGE_MAP_SIZE as int);
        slots_are_finite(hits.difference(old(coverage)@.seen), COVERAGE_MAP_SIZE as int);
        old(coverage).wf_bounds();
        coverage.wf_bounds();
        list_has_length(new@, hits.difference(old(coverage)@.seen));
        merge_counts_new_edges(old(coverage)@.seen, hits, new@);
        assert(hits.len() > 0);
        let slot = hits.choose();
        assert(hits.contains(slot));
        assert(coverage@.seen.contains(slot));
        if coverage@.seen.len() == 0 {
            assert(coverage@.seen =~= Set::empty());
        }
    }
    new
}

/// The states of all random sources of a session.
pub struct DrawModel {
    /// Of the session itself.
    pub session: RngState,
    /// Of the value generator.
    pub generator: RngState,
    /// Of the mutation scheduler, with its counts.
    pub mutator: MutatorModel,
}

/// The input to mutate, and the states after the draws: with a chance of one in
/// five, or if the corpus is empty, a generated integer; otherwise an entry of
/// the corpus, selected by weight.
pub open spec fn base_input(entries: Seq<CorpusEntry>, config: InputGenConfig, d: DrawModel) -> (
    Seq<u8>,
    DrawModel,
) {
    let fresh = chanced(d.session, 1, 5);
    if entries.len() == 0 || fresh.0 {
        let value = generated(SorobanValueType::I128, config, d.generator);
        (
            json_of(value.0),
            DrawModel {
                session: if entries.len() == 0 {
                    d.session
                } else {
                    fresh.1
                },
                generator: value.1,
                mutator: d.mutator,
            },
        )
    } else {
        let choice = weighted_choice(entries, fresh.1);
        (
            entries[choice.0].bytes@,
            DrawModel { session: choice.1, generator: d.generator, mutator: d.mutator },
        )
    }
}

/// The input to splice with, and the state after the draw: any entry.
pub open spec fn donor_input(entries: Seq<CorpusEntry>, s: RngState) -> (Option<Seq<u8>>, RngState) {
    if entries.len() == 0 {
        (None, s)
    } else {
        let choice = picked(s, entries.len() as int);
        (Some(entries[choice.0].bytes@), choice.1)
    }
}

/// The next input, the operator that made it, and the states after the draws.
#[verifier::opaque]
pub open spec fn next_draw(
    entries: Seq<CorpusEntry>,
    values: InputGenConfig,
    mutations: MutatorConfig,
    d: DrawModel,
) -> (Seq<u8>, MutationStrategy, DrawModel) {
    let base = base_input(entries, values, d);
    let donor = donor_input(entries, base.1.session);
    let strategy = drawn_strategy(base.1.mutator.rng);
    let result = mutated(
        strategy.0,
        base.0,
        donor.0,
        mutations,
        MutatorModel { rng: strategy.1, tally: base.1.mutator.tally },
    );
    (
        result.0,
        strategy.0,
        DrawModel { session: donor.1, generator: base.1.generator, mutator: result.1 },
    )
}

/// A candidate reproduces a crash if it begins as the crashing input does.
pub open spec fn begins_like(input: Seq<u8>) -> spec_fn(Seq<u8>) -> bool {
    |candidate: Seq<u8>| candidate.len() > 0 && input.len() > 0 && candidate[0] == input[0]
}

/// What a crash is known by: its error, or the lack of one.
pub open spec fn error_text(outcome: ExecutionOutcome) -> Seq<char> {
    match outcome.error {
        Some(text) => text@,
        None => "unknown error"@,
    }
}

/// What came of a step of a session.
#[derive(Debug)]
pub enum StepOutcome {
    /// An input was executed.
    Executed {
        /// The operator that made it.
        strategy: MutationStrategy,
        /// Whether it joined the corpus.
        interesting: bool,
        /// Whether it found a unique crash.
        reported: bool,
    },
    /// The machine could not be reset.
    ResetFailed(VmResetError),
}

/// A fuzzing session on a virtual machine.
pub struct FuzzSession<B: VmBackend> {
    /// The binary under test.
    pub wasm_bytes: Vec<u8>,
    /// Time budget, in nanoseconds.
    pub timeout_ns: Option<u64>,
    /// Maximum number of executions.
    pub max_executions: Option<u64>,
    /// What the analysis of the binary found; with an error the binary is run as it
    /// is.
    pub instrumentation: Result<InstrumentationStats, WasmInstrumentError>,
    /// The corpus.
    pub corpus: Corpus,
    /// The coverage of all executions.
    pub coverage: CoverageMap,
    /// The status.
    pub dashboard: FuzzerDashboard,
    /// The generator of values.
    pub input_gen: SorobanInputGen,
    /// The mutation scheduler.
    pub mutator: MutationScheduler,
    /// The crash triage.
    pub triage: CrashTriageEngine,
    /// A report of each unique crash.
    pub crash_reports: Vec<CrashReport>,
    /// The machine.
    pub vm: PersistentVm<B>,
    /// The random source of selections.
    pub rng: FuzzRng,
    /// Number of executed inputs.
    pub executions: u64,
    /// How many interesting inputs each operator produced, by its place.
    pub effectiveness: Vec<u64>,
    /// Whether the machine could not be reset.
    pub failed: bool,
}

impl<B: VmBackend> FuzzSession<B> {
    /// Number of inputs that were handed to the machine.
    pub open spec fn attempts(self) -> int {
        self.executions + (if self.failed {
            1int
        } else {
            0
        })
    }

    /// The states of all random sources.
    pub open spec fn draws(self) -> DrawModel {
        DrawModel {
            session: self.rng@,
            generator: self.input_gen.rng@,
            mutator: self.mutator@,
        }
    }

    /// What executed inputs have changed is well-formed, its counters agree, and
    /// there is a report of each unique crash.
    pub open spec fn books_agree(self) -> bool {
        &&& fuzzable(self.wasm_bytes@)
        &&& self.corpus.wf()
        &&& self.coverage.wf()
        &&& self.triage.wf()
        &&& self.triage.limits().budget() == (Budget { max_trials: 256, min_bytes: 1 })
        &&& self.triage.crashes() <= self.executions
        &&& self.crash_reports@.len() == self.triage@.dom().len()
        &&& self.dashboard.status.consistent()
        &&& self.dashboard.status.total_executions == self.executions
        &&& self.dashboard.status.total_crashes == self.triage.crashes()
        &&& self.dashboard.status.unique_crashes == self.crash_reports@.len()
        &&& self.effectiveness_bounded()
    }

    /// All parts are well-formed, and their counters agree.
    pub open spec fn wf(self) -> bool {
        &&& self.books_agree()
        &&& self.mutator.wf()
        &&& self.mutator.config.havoc_max_rounds == 128
        &&& self.mutator.stats.total_mutations <= 129 * self.attempts()
        &&& self.vm.backend.ready()
        &&& self.vm.snapshot is Some
        &&& self.vm.total_executions == self.attempts()
        &&& self.vm.reset_count == self.executions
    }

    /// The counters hold one more execution.
    pub open spec fn has_room(self) -> bool {
        &&& self.executions < u64::MAX
        &&& self.mutator.stats.total_mutations + 129 <= u64::MAX
    }

    /// There is a count for each operator, and none is above the executions.
    pub open spec fn effectiveness_bounded(self) -> bool {
        &&& self.effectiveness@.len() == STRATEGY_COUNT
        &&& forall|i: int|
            0 <= i < STRATEGY_COUNT ==> #[trigger] self.effectiveness@[i] <= self.executions
    }

    /// The session ends at a time: a budget is used up, the machine could not be
    /// reset, or the counters are full.
    pub open spec fn ends(self, at_ns: u64) -> bool {
        ||| self.max_executions matches Some(max) && self.executions >= max
        ||| self.timeout_ns matches Some(timeout) && at_ns >= timeout
        ||| self.failed
        ||| !self.has_room()
    }

    /// Everything that no step changes.
    pub open spec fn same_settings(self, other: Self) -> bool {
        &&& self.wasm_bytes == other.wasm_bytes
        &&& self.instrumentation == other.instrumentation
        &&& self.timeout_ns == other.timeout_ns
        &&& self.max_executions == other.max_executions
        &&& self.input_gen.config == other.input_gen.config
        &&& self.mutator.config == other.mutator.config
        &&& self.vm.snapshot == other.vm.snapshot
        &&& self.vm.timeout_ns == other.vm.timeout_ns
        &&& self.corpus.dir() == other.corpus.dir()
        &&& self.dashboard.status.session_start == other.dashboard.status.session_start
    }

    /// Whether the session ends at a time.
    pub fn is_over(&self, at_ns: u64) -> (over: bool)
        ensures
            over == self.ends(at_ns),
    {
        let spent: bool = match self.max_executions {
            Some(max) => self.executions >= max,
            None => false,
        };
        let late: bool = match self.timeout_ns {
            Some(timeout) => at_ns >= timeout,
            None => false,
        };
        let full: bool = self.executions == u64::MAX || self.mutator.stats.total_mutations
            > u64::MAX - 129;
        spent || late || self.failed || full
    }

    /// The time since the session began, in nanoseconds.
    pub fn time_ns(&self) -> (nanos: u64)
        ensures
            read_since(self.dashboard.status.session_start, nanos),
    {
        time_since(&self.dashboard.status.session_start)
    }

    /// Makes the next input, with the operator that made it.
    pub fn next_input(&mut self) -> (next: (Vec<u8>, MutationStrategy))
        requires
            old(self).wf(),
            !old(self).failed,
            old(self).has_room(),
        ensures
            (next.0@, next.1, final(self).draws()) == next_draw(
                old(self).corpus@,
                old(self).input_gen.config,
                old(self).mutator.config,
                old(self).draws(),
            ),
            final(self).same_settings(*old(self)),
            final(self).corpus == old(self).corpus,
            final(self).coverage == old(self).coverage,
            final(self).triage == old(self).triage,
            final(self).crash_reports == old(self).crash_reports,
            final(self).vm == old(self).vm,
            final(self).executions == old(self).executions,
            final(self).effectiveness == old(self).effectiveness,
            final(self).failed == old(self).failed,
            final(self).mutator.wf(),
            final(self).mutator.stats.total_mutations <= old(self).mutator.stats.total_mutations
                + 129,
            final(self).dashboard.status == (FuzzerStatus {
                current_stage: final(self).dashboard.status.current_stage,
                ..old(self).dashboard.status
            }),
            final(self).dashboard.status.current_stage@ == next.1.title(),
    {
        reveal(next_draw);
        let fresh: bool = self.corpus.is_empty() || self.rng.chance(1, 5);
        let base: Vec<u8> = if fresh {
            self.dashboard.set_stage("generate");
            let value: SorobanValue = self.input_gen.generate(&SorobanValueType::I128);
            value.to_bytes()
        } else {
            match self.corpus.select_weighted(&mut self.rng) {
                Some(entry) => slice_to_vec(entry.bytes.as_slice()),
                None => Vec::new(),
            }
        };
        let donor: Option<Vec<u8>> = match self.corpus.select_random(&mut self.rng) {
            Some(entry) => Some(slice_to_vec(entry.bytes.as_slice())),
            None => None,
        };
        let other: Option<&[u8]> = match &donor {
            Some(bytes) => Some(bytes.as_slice()),
            None => None,
        };
        let (input, strategy): (Vec<u8>, MutationStrategy) = self.mutator.mutate_random(
            base.as_slice(),
            other,
        );
        self.dashboard.set_stage(strategy.name());
        (input, strategy)
    }

    /// What an executed input does to the coverage and to the corpus: its edges
    /// are merged, and it joins the corpus if some of them are new or its outcome
    /// is discrepant.
    #[verifier::opaque]
    pub open spec fn learned(
        self,
        before: Self,
        input: Seq<u8>,
        strategy: MutationStrategy,
        outcome: ExecutionOutcome,
        exec_ns: u64,
        interesting: bool,
    ) -> bool {
        let hits = reached(before.wasm_bytes@, coverage_seed(input));
        let fresh = hits.difference(before.coverage@.seen).len();
        let start = before.dashboard.status.session_start;
        &&& exists|at_ns: u64|
            {
                &&& #[trigger] read_since(start, at_ns)
                &&& self.dashboard.status.ticked(before.dashboard.status, at_ns)
            }
        &&& interesting == (fresh > 0 || discrepant(outcome))
        &&& self.coverage@.seen == before.coverage@.seen.union(hits)
        &&& self.coverage@.seen.len() == before.coverage@.seen.len() + fresh
        &&& self.coverage@.interesting == before.coverage@.interesting + (if fresh > 0 {
            1nat
        } else {
            0
        })
        &&& if interesting {
            &&& self.corpus@.len() == before.corpus@.len() + 1
            &&& self.corpus@.drop_last() == before.corpus@
            &&& self.corpus@.last().made_from(
                input,
                exec_ns,
                fresh,
                None,
                strategy.title(),
                before.corpus@.len(),
            )
            &&& self.effectiveness@ == tallied(before.effectiveness@, strategy)
            &&& self.dashboard.status.corpus_stats.describes(self.corpus@)
            &&& self.dashboard.status.coverage_stats.total_edges == self.coverage@.seen.len()
            &&& self.dashboard.status.coverage_stats.density == density_of(
                self.coverage@.seen.len(),
            )
            &&& self.dashboard.status.coverage_stats.interesting_inputs
                == self.coverage@.interesting
            &&& self.dashboard.status.coverage_bitmap@ == bitmap_of(self.coverage@.seen)
            &&& read_since(start, self.dashboard.status.last_new_coverage_ns)
        } else {
            &&& self.corpus == before.corpus
            &&& self.effectiveness == before.effectiveness
            &&& self.dashboard.status.corpus_stats == before.dashboard.status.corpus_stats
            &&& self.dashboard.status.coverage_stats == before.dashboard.status.coverage_stats
            &&& self.dashboard.status.coverage_bitmap == before.dashboard.status.coverage_bitmap
            &&& self.dashboard.status.last_new_coverage_ns
                == before.dashboard.status.last_new_coverage_ns
        }
    }

    /// What an executed input does to the triage: a crash is taken in, and the
    /// first one of its kind is reported with an input minimised by its first
    /// byte.
    #[verifier::opaque]
    pub open spec fn triaged(
        self,
        before: Self,
        input: Seq<u8>,
        outcome: ExecutionOutcome,
        reported: bool,
    ) -> bool {
        if outcome.success {
            &&& !reported
            &&& self.triage == before.triage
            &&& self.crash_reports == before.crash_reports
        } else {
            &&& took_in(
                before.triage@,
                self.triage@,
                input,
                error_text(outcome),
                None,
                if reported {
                    Some(self.crash_reports@.last())
                } else {
                    None
                },
            )
            &&& self.triage.crashes() == before.triage.crashes() + 1
            &&& if reported {
                &&& self.crash_reports@.len() == before.crash_reports@.len() + 1
                &&& self.crash_reports@.drop_last() == before.crash_reports@
                &&& self.crash_reports@.last().minimal_input@ == minimised(
                    input,
                    begins_like(input),
                    Budget { max_trials: 256, min_bytes: 1 },
                )
            } else {
                self.crash_reports == before.crash_reports
            }
        }
    }

    proof fn learned_carries(
        self,
        same: Self,
        before: Self,
        same_before: Self,
        input: Seq<u8>,
        strategy: MutationStrategy,
        outcome: ExecutionOutcome,
        exec_ns: u64,
        interesting: bool,
    )
        requires
            same.learned(before, input, strategy, outcome, exec_ns, interesting),
            self.coverage == same.coverage,
            self.corpus == same.corpus,
            self.effectiveness == same.effectiveness,
            self.dashboard.status == (FuzzerStatus {
                total_crashes: self.dashboard.status.total_crashes,
                unique_crashes: self.dashboard.status.unique_crashes,
                ..same.dashboard.status
            }),
            same_before.wasm_bytes == before.wasm_bytes,
            same_before.coverage == before.coverage,
            same_before.corpus == before.corpus,
            same_before.effectiveness == before.effectiveness,
            before.dashboard.status == (FuzzerStatus {
                current_stage: before.dashboard.status.current_stage,
                ..same_before.dashboard.status
            }),
        ensures
            self.learned(same_before, input, strategy, outcome, exec_ns, interesting),
    {
        reveal(FuzzSession::learned);
        let start = before.dashboard.status.session_start;
        let at_ns = choose|at_ns: u64|
            {
                &&& #[trigger] read_since(start, at_ns)
                &&& same.dashboard.status.ticked(before.dashboard.status, at_ns)
            };
        assert(self.dashboard.status.ticked(same_before.dashboard.status, at_ns));
    }

    proof fn triaged_carries(
        self,
        before: Self,
        same_before: Self,
        input: Seq<u8>,
        outcome: ExecutionOutcome,
        reported: bool,
    )
        requires
            self.triaged(before, input, outcome, reported),
            same_before.triage == before.triage,
            same_before.crash_reports == before.crash_reports,
        ensures
            self.triaged(same_before, input, outcome, reported),
    {
        reveal(FuzzSession::triaged);
    }

    /// Counts an executed input, merges its edges, and adds it to the corpus if it
    /// is interesting.
    fn learn(
        &mut self,
        input: &[u8],
        strategy: MutationStrategy,
        outcome: &ExecutionOutcome,
        exec_ns: u64,
    ) -> (interesting: bool)
        requires
            old(self).corpus.wf(),
            old(self).coverage.wf(),
            fuzzable(old(self).wasm_bytes@),
            old(self).executions < u64::MAX,
            old(self).dashboard.status.consistent(),
            old(self).dashboard.status.total_executions == old(self).executions,
            old(self).effectiveness_bounded(),
        ensures
            final(self).learned(*old(self), input@, strategy, *outcome, exec_ns, interesting),
            final(self).executions == old(self).executions + 1,
            final(self).same_settings(*old(self)),
            final(self).rng == old(self).rng,
            final(self).input_gen == old(self).input_gen,
            final(self).mutator == old(self).mutator,
            final(self).vm == old(self).vm,
            final(self).failed == old(self).failed,
            final(self).triage == old(self).triage,
            final(self).crash_reports == old(self).crash_reports,
            final(self).corpus.wf(),
            final(self).coverage.wf(),
            final(self).dashboard.status.consistent(),
            final(self).dashboard.status.total_executions == final(self).executions,
            final(self).dashboard.status.total_crashes == old(self).dashboard.status.total_crashes,
            final(self).dashboard.status.unique_crashes == old(self).dashboard.status.unique_crashes,
            final(self).dashboard.status.current_stage == old(self).dashboard.status.current_stage,
            final(self).effectiveness_bounded(),
    {
        reveal(FuzzSession::learned);
        self.executions = self.executions + 1;
        self.dashboard.tick();
        let new: Vec<EdgeId> = cover(&self.wasm_bytes, seed_of(input), &mut self.coverage);
        let interesting: bool = new.len() > 0 || check_differential_discrepancy(outcome);
        if interesting {
            self.dashboard.record_new_coverage();
            let place: usize = strategy.index();
            let count: u64 = self.effectiveness[place];
            self.effectiveness.set(place, count + 1);
            let id: usize = self.corpus.next_id();
            let entry: CorpusEntry = CorpusEntry::new(
                slice_to_vec(input),
                exec_ns,
                new.len(),
                None,
                strategy.name(),
                id,
            );
            self.corpus.add(entry);
            assert(self.corpus@.drop_last() =~= old(self).corpus@);
            self.dashboard.update_corpus_stats(self.corpus.stats());
            self.dashboard.update_coverage(self.coverage.stats(), self.coverage.bitmap_snapshot());
        }
        interesting
    }

    /// Takes in a crash, if the outcome is one, and tells whether it is unique.
    fn triage_outcome(&mut self, input: Vec<u8>, outcome: &ExecutionOutcome, exec_ns: u64) -> (
        reported: bool)
        requires
            old(self).triage.wf(),
            old(self).triage.limits().budget() == (Budget { max_trials: 256, min_bytes: 1 }),
            old(self).triage.crashes() < u64::MAX,
            old(self).dashboard.status.consistent(),
            old(self).dashboard.status.total_crashes == old(self).triage.crashes(),
            old(self).dashboard.status.unique_crashes == old(self).crash_reports@.len(),
            old(self).crash_reports@.len() == old(self).triage@.dom().len(),
        ensures
            final(self).triaged(*old(self), input@, *outcome, reported),
            *final(self) == (FuzzSession {
                triage: final(self).triage,
                crash_reports: final(self).crash_reports,
                dashboard: final(self).dashboard,
                ..*old(self)
            }),
            final(self).dashboard.status == (FuzzerStatus {
                total_crashes: final(self).dashboard.status.total_crashes,
                unique_crashes: final(self).dashboard.status.unique_crashes,
                ..old(self).dashboard.status
            }),
            final(self).dashboard.status.consistent(),
            final(self).triage.wf(),
            final(self).triage.limits() == old(self).triage.limits(),
            final(self).triage.crashes() <= old(self).triage.crashes() + 1,
            final(self).dashboard.status.total_crashes == final(self).triage.crashes(),
            final(self).dashboard.status.unique_crashes == final(self).crash_reports@.len(),
            final(self).crash_reports@.len() == final(self).triage@.dom().len(),
    {
        reveal(FuzzSession::triaged);
        if outcome.success {
            return false;
        }
        let text: String = match &outcome.error {
            Some(error) => error.clone(),
            None => String::from_str("unknown error"),
        };
        let first: Option<u8> = if input.len() > 0 {
            Some(input[0])
        } else {
            None
        };
        let ghost like = begins_like(input@);
        let info: CrashInfo = CrashInfo {
            input,
            error_text: text,
            execution_time_ns: exec_ns,
            label: None,
        };
        let reproduces = |candidate: &[u8]| -> (yes: bool)
            ensures
                yes == (candidate@.len() > 0 && first == Some(candidate@[0])),
        {
            match first {
                Some(byte) => candidate.len() > 0 && candidate[0] == byte,
                None => false,
            }
        };
        assert(answers(reproduces, like));
        let report: Option<CrashReport> = self.triage.process(info, reproduces);
        match report {
            Some(r) => {
                self.dashboard.record_crash(true);
                let ghost before = self.crash_reports@;
                self.crash_reports.push(r);
                assert(self.crash_reports@.drop_last() =~= before);
                true
            },
            None => {
                self.dashboard.record_crash(false);
                false
            },
        }
    }

    /// Takes in what came of executing an input: whether it joined the corpus,
    /// and whether it found a unique crash.
    pub fn absorb(
        &mut self,
        input: Vec<u8>,
        strategy: MutationStrategy,
        outcome: &ExecutionOutcome,
        exec_ns: u64,
    ) -> (result: (bool, bool))
        requires
            old(self).books_agree(),
            old(self).executions < u64::MAX,
        ensures
            final(self).learned(*old(self), input@, strategy, *outcome, exec_ns, result.0),
            final(self).triaged(*old(self), input@, *outcome, result.1),
            final(self).executions == old(self).executions + 1,
            final(self).same_settings(*old(self)),
            final(self).draws() == old(self).draws(),
            final(self).mutator == old(self).mutator,
            final(self).vm == old(self).vm,
            final(self).failed == old(self).failed,
            final(self).books_agree(),
            final(self).dashboard.status.current_stage == old(self).dashboard.status.current_stage,
    {
        let ghost before = *self;
        let interesting: bool = self.learn(input.as_slice(), strategy, outcome, exec_ns);
        let ghost middle = *self;
        let reported: bool = self.triage_outcome(input, outcome, exec_ns);
        proof {
            self.learned_carries(
                middle,
                before,
                before,
                input@,
                strategy,
                *outcome,
                exec_ns,
                interesting,
            );
            self.triaged_carries(middle, before, input@, *outcome, reported);
        }
        (interesting, reported)
    }

    /// A step executed the next input with an outcome.
    #[verifier::opaque]
    pub open spec fn executed(
        self,
        before: Self,
        middle: B,
        outcome: ExecutionOutcome,
        exec_ns: u64,
        strategy: MutationStrategy,
        interesting: bool,
        reported: bool,
    ) -> bool {
        let next = next_draw(
            before.corpus@,
            before.input_gen.config,
            before.mutator.config,
            before.draws(),
        );
        &&& measured(exec_ns)
        &&& strategy == next.1
        &&& self.draws() == next.2
        &&& B::ran(before.vm.backend, next.0, before.vm.timeout_ns, middle, outcome)
        &&& B::restored(middle, before.vm.snapshot->0, self.vm.backend, None)
        &&& self.vm.backend.holds(before.vm.snapshot->0)
        &&& self.learned(before, next.0, strategy, outcome, exec_ns, interesting)
        &&& self.triaged(before, next.0, outcome, reported)
        &&& self.executions == before.executions + 1
        &&& self.dashboard.status.current_stage@ == strategy.title()
    }

    /// A step stopped because the machine could not be reset.
    #[verifier::opaque]
    pub open spec fn stopped(
        self,
        before: Self,
        middle: B,
        outcome: ExecutionOutcome,
        error: VmResetError,
    ) -> bool {
        let next = next_draw(
            before.corpus@,
            before.input_gen.config,
            before.mutator.config,
            before.draws(),
        );
        &&& self.draws() == next.2
        &&& B::ran(before.vm.backend, next.0, before.vm.timeout_ns, middle, outcome)
        &&& B::restored(middle, before.vm.snapshot->0, self.vm.backend, Some(error))
        &&& self.failed
        &&& self.executions == before.executions
        &&& self.corpus == before.corpus
        &&& self.coverage == before.coverage
        &&& self.triage == before.triage
        &&& self.crash_reports == before.crash_reports
        &&& self.effectiveness == before.effectiveness
    }

    /// A step has led from one state to another.
    pub open spec fn stepped(self, before: Self, step: StepOutcome) -> bool {
        match step {
            StepOutcome::Executed { strategy, interesting, reported } => {
                &&& !self.failed
                &&& exists|middle: B, outcome: ExecutionOutcome, exec_ns: u64| #[trigger]
                    self.executed(
                        before,
                        middle,
                        outcome,
                        exec_ns,
                        strategy,
                        interesting,
                        reported,
                    )
            },
            StepOutcome::ResetFailed(error) => exists|middle: B, outcome: ExecutionOutcome|
             #[trigger]
                self.stopped(before, middle, outcome, error),
        }
    }

    /// Makes the next input, executes it, and takes in what came of it.
    pub fn step(&mut self) -> (step: StepOutcome)
        requires
            old(self).wf(),
            !old(self).failed,
            old(self).has_room(),
        ensures
            final(self).wf(),
            final(self).same_settings(*old(self)),
            final(self).stepped(*old(self), step),
    {
        let ghost before = *self;
        let (input, strategy): (Vec<u8>, MutationStrategy) = self.next_input();
        let start: Instant = present();
        let result: Result<ExecutionOutcome, VmResetError> = self.vm.execute_and_reset(
            input.as_slice(),
        );
        match result {
            Err(error) => {
                self.failed = true;
                proof {
                    let (middle, outcome) = choose|middle: B, outcome: ExecutionOutcome|
                        {
                            &&& #[trigger] B::ran(
                                before.vm.backend,
                                input@,
                                before.vm.timeout_ns,
                                middle,
                                outcome,
                            )
                            &&& B::restored(
                                middle,
                                before.vm.snapshot->0,
                                self.vm.backend,
                                Some(error),
                            )
                        };
                    reveal(FuzzSession::stopped);
                    assert(self.stopped(*old(self), middle, outcome, error));
                }
                StepOutcome::ResetFailed(error)
            },
            Ok(outcome) => {
                let exec_ns: u64 = time_since(&start);
                assert(measured(exec_ns));
                let ghost executed = *self;
                let ghost bytes = input@;
                let (interesting, reported): (bool, bool) = self.absorb(
                    input,
                    strategy,
                    &outcome,
                    exec_ns,
                );
                let step: StepOutcome = StepOutcome::Executed { strategy, interesting, reported };
                proof {
                    let middle = choose|middle: B|
                        {
                            &&& #[trigger] B::ran(
                                before.vm.backend,
                                bytes,
                                before.vm.timeout_ns,
                                middle,
                                outcome,
                            )
                            &&& B::restored(middle, before.vm.snapshot->0, executed.vm.backend, None)
                        };
                    self.learned_carries(
                        *self,
                        executed,
                        before,
                        bytes,
                        strategy,
                        outcome,
                        exec_ns,
                        interesting,
                    );
                    self.triaged_carries(executed, before, bytes, outcome, reported);
                    assert(self.executed(
                        *old(self),
                        middle,
                        outcome,
                        exec_ns,
                        step->strategy,
                        step->interesting,
                        step->reported,
                    )) by {
                        reveal(FuzzSession::executed);
                    }
                }
                assert(self.stepped(*old(self), step));
                step
            },
        }
    }

    /// The report of a session.
    pub open spec fn reported_by(self, at_ns: u64, report: FuzzerReport) -> bool {
        &&& report.total_executions == self.executions
        &&& report.corpus_entries == self.corpus@.len()
        &&& report.unique_crashes == self.triage@.dom().len()
        &&& report.total_crashes == self.triage.crashes()
        &&& report.coverage_density == density_of(self.coverage@.seen.len())
        &&& report.total_edges_found == self.coverage@.seen.len()
        &&& report.session_duration_ns == at_ns
        &&& at_ns > 0 ==> report.executions_per_second.numerator == self.executions * 1_000_000_000
            && report.executions_per_second.denominator == at_ns
        &&& at_ns == 0 ==> report.executions_per_second == (Ratio { numerator: 0, denominator: 1 })
        &&& report.crash_reports == self.crash_reports
        &&& report.strategy_effectiveness == self.effectiveness
    }

    /// Ends the session at a time, with a report.
    pub fn finish_at(self, at_ns: u64) -> (report: FuzzerReport)
        requires
            self.wf(),
        ensures
            self.reported_by(at_ns, report),
            report.total_edges_found <= COVERAGE_MAP_SIZE,
    {
        proof {
            self.coverage.wf_bounds();
        }
        FuzzerReport {
            total_executions: self.executions,
            corpus_entries: self.corpus.len(),
            unique_crashes: self.triage.unique_crash_count(),
            total_crashes: self.triage.total_crash_count(),
            coverage_density: self.coverage.density(),
            total_edges_found: self.coverage.total_edges(),
            session_duration_ns: at_ns,
            executions_per_second: if at_ns > 0 {
                Ratio {
                    numerator: self.executions as u128 * 1_000_000_000,
                    denominator: at_ns as u128,
                }
            } else {
                Ratio::zero()
            },
            crash_reports: self.crash_reports,
            strategy_effectiveness: self.effectiveness,
        }
    }
}

/// The corpus that a session begins with, from seeds: an entry of each, in their
/// order.
pub open spec fn holds_seeds(
    entries: Seq<CorpusEntry>,
    seeds: Seq<(Vec<u8>, Option<String>)>,
) -> bool {
    &&& entries.len() == seeds.len()
    &&& forall|i: int|
        0 <= i < seeds.len() ==> (#[trigger] entries[i]).made_from(
            seeds[i].0@,
            NANOS_PER_MILLI,
            1,
            label_view(seeds[i].1),
            "seed"@,
            i as nat,
        )
}

/// The analysis with its usual settings.
pub open spec fn usual_analysis() -> WasmInstrumenter {
    WasmInstrumenter { track_edges: true, max_overhead_pct: (20 * FRACTION_UNIT) as u64 }
}

/// Seeds an empty corpus with a well-typed value of each basic type; one with entries is
/// left as it is.
pub fn seed_corpus(
    wasm_bytes: &Vec<u8>,
    corpus: &mut Corpus,
    generator: &mut SorobanInputGen,
    coverage: &mut CoverageMap,
)
    requires
        fuzzable(wasm_bytes@),
        old(corpus).wf(),
        old(coverage).wf(),
    ensures
        final(corpus).wf(),
        final(coverage).wf(),
        final(corpus).dir() == old(corpus).dir(),
        final(generator).config == old(generator).config,
        old(corpus)@.len() > 0 ==> {
            &&& final(corpus)@ == old(corpus)@
            &&& final(coverage)@ == old(coverage)@
            &&& final(generator).rng@ == old(generator).rng@
        },
        old(corpus)@.len() == 0 ==> {
            &&& final(corpus)@.len() == 6
            &&& forall|i: int|
                0 <= i < 6 ==> is_seed(
                    #[trigger] final(corpus)@[i],
                    wasm_bytes@,
                    old(generator).config,
                    old(generator).rng@,
                    old(coverage)@.seen,
                    i as nat,
                )
            &&& final(generator).rng@ == seeding_state(
                old(generator).config,
                old(generator).rng@,
                6,
            )
            &&& final(coverage)@.seen == seeding_seen(wasm_bytes@, old(coverage)@.seen, 6)
            &&& final(coverage)@.interesting == old(coverage)@.interesting + seeding_finds(
                wasm_bytes@,
                old(coverage)@.seen,
                6,
            )
            &&& final(coverage)@.seen.len() > 0
        },
{
    if !corpus.is_empty() {
        return;
    }
    let ghost config = generator.config;
    let ghost start = generator.rng@;
    let ghost seen = coverage@.seen;
    let schema: Vec<(SorobanValueType, String)> = seed_schema();
    let mut i: usize = 0;
    while i < 6
        invariant
            fuzzable(wasm_bytes@),
            corpus.wf(),
            coverage.wf(),
            corpus.dir() == old(corpus).dir(),
            generator.config == config,
            schema@.len() == 6,
            forall|k: int|
                0 <= k < 6 ==> (#[trigger] schema@[k]).0 == seed_types()[k] && schema@[k].1@
                    == seed_names()[k],
            i <= 6,
            corpus@.len() == i,
            generator.rng@ == seeding_state(config, start, i as nat),
            coverage@.seen == seeding_seen(wasm_bytes@, seen, i as nat),
            coverage@.interesting == old(coverage)@.interesting + seeding_finds(
                wasm_bytes@,
                seen,
                i as nat,
            ),
            i > 0 ==> coverage@.seen.len() > 0,
            forall|k: int|
                0 <= k < i ==> is_seed(
                    #[trigger] corpus@[k],
                    wasm_bytes@,
                    config,
                    start,
                    seen,
                    k as nat,
                ),
        decreases 6 - i,
    {
        let value: SorobanValue = generator.generate_typed(&schema[i].0, 0);
        let bytes: Vec<u8> = value.to_bytes();
        let new: Vec<EdgeId> = cover(wasm_bytes, i as u64, coverage);
        let edges: usize = if new.len() == 0 {
            1
        } else {
            new.len()
        };
        let label: Option<String> = Some(schema[i].1.clone());
        let entry: CorpusEntry = CorpusEntry::new(
            bytes,
            NANOS_PER_MILLI,
            edges,
            label,
            "seed_auto",
            i,
        );
        let ghost before = corpus@;
        corpus.add(entry);
        proof {
            assert(corpus@.last() == corpus@[i as int]);
            assert forall|k: int| 0 <= k < i + 1 implies is_seed(
                #[trigger] corpus@[k],
                wasm_bytes@,
                config,
                start,
                seen,
                k as nat,
            ) by {
                if k < i {
                    assert(corpus@[k] == before[k]);
                }
            }
        }
        i = i + 1;
    }
}

impl<B: VmBackend> FuzzSession<B> {
    /// The session has just begun.
    pub open spec fn begun(
        self,
        config: FuzzerConfig,
        seeds: Seq<(Vec<u8>, Option<String>)>,
    ) -> bool {
        &&& self.wf()
        &&& self.wasm_bytes@ == config.wasm_bytes@
        &&& usual_analysis().judges(config.wasm_bytes@, self.instrumentation)
        &&& self.timeout_ns == config.timeout_ns
        &&& self.max_executions == config.max_executions
        &&& self.executions == 0
        &&& !self.failed
        &&& self.crash_reports@.len() == 0
        &&& self.triage.crashes() == 0
        &&& self.effectiveness@ == Seq::new(STRATEGY_COUNT as nat, |i: int| 0u64)
        &&& self.input_gen.config == (InputGenConfig {
            valid_draws: 8106479329266893,
            max_depth: 4,
            max_vec_len: 50,
            max_map_size: 20,
            seed: config.seed,
        })
        &&& self.mutator.config == (MutatorConfig {
            havoc_max_rounds: 128,
            splice_max_fraction: (FRACTION_UNIT / 2) as u64,
            splice_min_bytes: 4,
            mutations_per_entry: 512,
        })
        &&& self.mutator@.tally == Seq::new(STRATEGY_COUNT as nat, |i: int| 0u64)
        &&& self.vm.timeout_ns == EXECUTION_LIMIT_NS
        &&& self.dashboard.status.fresh(config.timeout_ns)
        &&& label_view(self.corpus.dir()) == label_view(config.corpus_dir)
        &&& config.seed matches Some(n) ==> self.rng@ == seeded(n) && self.mutator@.rng == seeded(
            n,
        )
        &&& seeds.len() > 0 ==> {
            &&& holds_seeds(self.corpus@, seeds)
            &&& self.coverage@.seen == Set::<int>::empty()
            &&& self.coverage@.interesting == 0
            &&& config.seed matches Some(n) ==> self.input_gen.rng@ == seeded(n)
        }
        &&& seeds.len() == 0 ==> exists|s: RngState| #[trigger]
            self.grown_from(config.wasm_bytes@, s) && (config.seed matches Some(n) ==> s == seeded(
                n,
            ))
    }

    /// The corpus and the coverage are those of the generated seeds, drawn from a
    /// state of the generator.
    pub open spec fn grown_from(self, wasm: Seq<u8>, s: RngState) -> bool {
        &&& self.corpus@.len() == 6
        &&& forall|i: int|
            0 <= i < 6 ==> is_seed(
                #[trigger] self.corpus@[i],
                wasm,
                self.input_gen.config,
                s,
                Set::empty(),
                i as nat,
            )
        &&& self.input_gen.rng@ == seeding_state(self.input_gen.config, s, 6)
        &&& self.coverage@.seen == seeding_seen(wasm, Set::empty(), 6)
        &&& self.coverage@.interesting == seeding_finds(wasm, Set::empty(), 6)
        &&& self.coverage@.seen.len() > 0
    }

    /// Begins a session: with the given seeds, or with generated ones if there
    /// are none.
    pub fn begin(config: &FuzzerConfig, seeds: Vec<(Vec<u8>, Option<String>)>, backend: B) -> (
        session: Self)
        requires
            fuzzable(config.wasm_bytes@),
            backend.ready(),
        ensures
            session.begun(*config, seeds@),
            session.vm.backend == backend,
            session.vm.snapshot matches Some(s) && backend.holds(s),
    {
        let dashboard: FuzzerDashboard = FuzzerDashboard::new(config.timeout_ns);
        let analysis: WasmInstrumenter = WasmInstrumenter::new();
        let instrumentation: Result<InstrumentationStats, WasmInstrumentError> =
            match analysis.instrument(config.wasm_bytes.as_slice()) {
            Ok((_, stats)) => Ok(stats),
            Err(error) => Err(error),
        };
        let mut corpus: Corpus = match &config.corpus_dir {
            Some(dir) => Corpus::with_dir(dir.clone()),
            None => Corpus::new(),
        };
        let mut i: usize = 0;
        while i < seeds.len()
            invariant
                corpus.wf(),
                label_view(corpus.dir()) == label_view(config.corpus_dir),
                i <= seeds@.len(),
                holds_seeds(corpus@, seeds@.take(i as int)),
            decreases seeds@.len() - i,
        {
            let ghost before = corpus@;
            let bytes: Vec<u8> = slice_to_vec(seeds[i].0.as_slice());
            let label: Option<String> = copy_label(&seeds[i].1);
            corpus.add_seed(bytes, label);
            proof {
                let now = seeds@.take(i + 1);
                assert forall|k: int| 0 <= k < now.len() implies (
                #[trigger] corpus@[k]).made_from(
                    now[k].0@,
                    NANOS_PER_MILLI,
                    1,
                    label_view(now[k].1),
                    "seed"@,
                    k as nat,
                ) by {
                    if k < i {
                        assert(corpus@[k] == corpus@.drop_last()[k]);
                        assert(before[k].made_from(
                            seeds@.take(i as int)[k].0@,
                            NANOS_PER_MILLI,
                            1,
                            label_view(seeds@.take(i as int)[k].1),
                            "seed"@,
                            k as nat,
                        ));
                    } else {
                        assert(corpus@[k] == corpus@.last());
                    }
                }
            }
            i = i + 1;
        }
        assert(seeds@.take(i as int) =~= seeds@);
        let mut coverage: CoverageMap = CoverageMap::new();
        let defaults: InputGenConfig = InputGenConfig::default();
        let mut input_gen: SorobanInputGen = SorobanInputGen::new(
            InputGenConfig { seed: config.seed, ..defaults },
        );
        let mutator: MutationScheduler = MutationScheduler::with_seed(
            MutatorConfig::default(),
            config.seed,
        );
        let triage: CrashTriageEngine = CrashTriageEngine::new(CrashTriageConfig::default());
        let mut vm: PersistentVm<B> = PersistentVm::new(backend, EXECUTION_LIMIT_NS);
        vm.take_snapshot();
        let ghost drawn_from = input_gen.rng@;
        seed_corpus(&config.wasm_bytes, &mut corpus, &mut input_gen, &mut coverage);
        let rng: FuzzRng = FuzzRng::new(config.seed);
        let effectiveness: Vec<u64> = vec![0u64; STRATEGY_COUNT];
        assert(effectiveness@ =~= Seq::new(STRATEGY_COUNT as nat, |i: int| 0u64));
        let session: FuzzSession<B> = FuzzSession {
            wasm_bytes: slice_to_vec(config.wasm_bytes.as_slice()),
            timeout_ns: config.timeout_ns,
            max_executions: config.max_executions,
            instrumentation,
            corpus,
            coverage,
            dashboard,
            input_gen,
            mutator,
            triage,
            crash_reports: Vec::new(),
            vm,
            rng,
            executions: 0,
            effectiveness,
            failed: false,
        };
        assert(seeds@.len() == 0 ==> session.grown_from(config.wasm_bytes@, drawn_from));
        session
    }
}

/// The bitmap of some slots.
pub open spec fn bitmap_of(seen: Set<int>) -> Seq<u8> {
    Seq::new(
        COVERAGE_MAP_SIZE as nat,
        |slot: int|
            if seen.contains(slot) {
                1u8
            } else {
                0u8
            },
    )
}

/// The coverage-guided fuzzer.
pub struct CoverageFuzzer {
    /// Settings.
    pub config: FuzzerConfig,
}

/// How many inputs joined the corpus.
pub open spec fn interesting_inputs(report: FuzzerReport) -> nat {
    tally_sum(report.strategy_effectiveness@)
}

/// A step on a machine that never crashes executes an input, reports nothing,
/// and adds to the corpus what the operators are credited with.
proof fn quiet_step(
    before: FuzzSession<StubVmBackend>,
    after: FuzzSession<StubVmBackend>,
    step: StepOutcome,
)
    requires
        before.wf(),
        after.wf(),
        before.has_room(),
        after.stepped(before, step),
        !before.vm.backend.crashes(),
        before.vm.backend.needs_ns() <= before.vm.timeout_ns,
    ensures
        step is Executed,
        !after.failed,
        after.executions == before.executions + 1,
        !after.vm.backend.crashes(),
        after.vm.backend.needs_ns() == before.vm.backend.needs_ns(),
        after.triage == before.triage,
        after.crash_reports == before.crash_reports,
        after.coverage@.seen.len() >= before.coverage@.seen.len(),
        after.corpus@.len() + tally_sum(before.effectiveness@) == before.corpus@.len() + tally_sum(
            after.effectiveness@,
        ),
{
    reveal(FuzzSession::stopped);
    reveal(FuzzSession::executed);
    match step {
        StepOutcome::Executed { strategy, interesting, reported } => {
            let (middle, outcome, exec_ns) = choose|
                middle: StubVmBackend,
                outcome: ExecutionOutcome,
                exec_ns: u64,
            | #[trigger]
                after.executed(
                    before,
                    middle,
                    outcome,
                    exec_ns,
                    strategy,
                    interesting,
                    reported,
                );
            assert(outcome.success);
            reveal(FuzzSession::triaged);
            reveal(FuzzSession::learned);
            let count = before.effectiveness@[strategy.place()];
            tally_sum_update(before.effectiveness@, strategy.place(), (count + 1) as u64);
        },
        StepOutcome::ResetFailed(error) => {},
    }
}

/// The states of a session from its begin on, each led to by a step.
pub open spec fn is_session(
    config: FuzzerConfig,
    states: Seq<FuzzSession<StubVmBackend>>,
    steps: Seq<StepOutcome>,
) -> bool {
    &&& states.len() == steps.len() + 1
    &&& states[0].begun(config, Seq::empty())
    &&& !states[0].vm.backend.crashes()
    &&& forall|i: int|
        0 <= i < steps.len() ==> went_on(states[i], states[i + 1], #[trigger] steps[i])
}

/// A session that was not over at the time that the clock told has taken a step.
pub open spec fn went_on(
    before: FuzzSession<StubVmBackend>,
    after: FuzzSession<StubVmBackend>,
    step: StepOutcome,
) -> bool {
    &&& exists|at_ns: u64|
        {
            &&& #[trigger] read_since(before.dashboard.status.session_start, at_ns)
            &&& !before.ends(at_ns)
        }
    &&& after.stepped(before, step)
    &&& after.same_settings(before)
}

/// The report is that of a session that went on until a budget was used up, at
/// the time that the clock told.
pub open spec fn is_outcome(config: FuzzerConfig, report: FuzzerReport) -> bool {
    exists|states: Seq<FuzzSession<StubVmBackend>>, steps: Seq<StepOutcome>|
        {
            &&& #[trigger] is_session(config, states, steps)
            &&& steps.len() == report.total_executions
            &&& read_since(
                states.last().dashboard.status.session_start,
                report.session_duration_ns,
            )
            &&& states.last().ends(report.session_duration_ns)
            &&& states.last().reported_by(report.session_duration_ns, report)
        }
}

impl CoverageFuzzer {
    /// A fuzzer.
    pub fn new(config: FuzzerConfig) -> (fuzzer: Self)
        ensures
            fuzzer.config == config,
    {
        CoverageFuzzer { config }
    }

    /// Runs a session in memory until its budgets are used up. A session whose
    /// corpus is kept in a directory is begun with the seeds from there, by
    /// [`FuzzSession::begin`].
    pub fn run(&mut self) -> (report: FuzzerReport)
        requires
            fuzzable(old(self).config.wasm_bytes@),
            old(self).config.corpus_dir is None,
        ensures
            *final(self) == *old(self),
            is_outcome(old(self).config, report),
            old(self).config.max_executions matches Some(max) ==> report.total_executions <= max,
            ({
                ||| old(self).config.max_executions matches Some(max) && report.total_executions
                    == max
                ||| old(self).config.timeout_ns matches Some(timeout) && report.session_duration_ns
                    >= timeout
                ||| report.total_executions > 0x100_0000_0000_0000
            }),
            report.corpus_entries == 6 + interesting_inputs(report),
            report.unique_crashes == 0,
            report.total_crashes == 0,
            report.crash_reports@.len() == 0,
            0 < report.total_edges_found <= COVERAGE_MAP_SIZE,
            report.coverage_density == density_of(report.total_edges_found as nat),
            report.strategy_effectiveness@.len() == STRATEGY_COUNT,
            report.session_duration_ns > 0 ==> report.executions_per_second.numerator
                == report.total_executions * 1_000_000_000
                && report.executions_per_second.denominator == report.session_duration_ns,
    {
        let none: Vec<(Vec<u8>, Option<String>)> = Vec::new();
        let backend: StubVmBackend = StubVmBackend::new();
        let mut session: FuzzSession<StubVmBackend> = FuzzSession::begin(
            &self.config,
            none,
            backend,
        );
        proof {
            tally_sum_zeros(session.effectiveness@);
        }
        let mut at_ns: u64 = session.time_ns();
        let ghost mut states: Seq<FuzzSession<StubVmBackend>> = seq![session];
        let ghost mut steps: Seq<StepOutcome> = Seq::empty();
        while !session.is_over(at_ns)
            invariant
                is_session(self.config, states, steps),
                states.last() == session,
                read_since(session.dashboard.status.session_start, at_ns),
                steps.len() == session.executions,
                session.wf(),
                !session.failed,
                session.max_executions == self.config.max_executions,
                session.timeout_ns == self.config.timeout_ns,
                session.max_executions matches Some(max) ==> session.executions <= max,
                !session.vm.backend.crashes(),
                session.vm.backend.needs_ns() <= session.vm.timeout_ns,
                session.triage.crashes() == 0,
                session.crash_reports@.len() == 0,
                session.coverage@.seen.len() > 0,
                session.corpus@.len() == 6 + tally_sum(session.effectiveness@),
            decreases u64::MAX - session.executions,
        {
            let ghost before = session;
            let step: StepOutcome = session.step();
            proof {
                quiet_step(before, session, step);
                assert(went_on(before, session, step));
                let now = states.push(session);
                let done = steps.push(step);
                assert forall|i: int| 0 <= i < done.len() implies went_on(
                    now[i],
                    now[i + 1],
                    #[trigger] done[i],
                ) by {
                    if i < steps.len() {
                        assert(went_on(states[i], states[i + 1], steps[i]));
                        assert(now[i] == states[i] && now[i + 1] == states[i + 1]);
                    } else {
                        assert(now[i] == before);
                    }
                }
                states = now;
                steps = done;
            }
            at_ns = session.time_ns();
        }
        let report: FuzzerReport = session.finish_at(at_ns);
        assert(is_session(self.config, states, steps));
        report
    }
}

/// Replay: the next input depends on the inputs and scores in the corpus, the
/// settings and the random sources alone.
pub proof fn next_input_replays(
    a: Seq<CorpusEntry>,
    b: Seq<CorpusEntry>,
    values: InputGenConfig,
    mutations: MutatorConfig,
    d: DrawModel,
)
    requires
        same_scores(a, b),
        forall|i: int| 0 <= i < a.len() ==> (#[trigger] a[i]).bytes@ == b[i].bytes@,
        a.len() > 0 ==> 0 <= weighted_choice(a, chanced(d.session, 1, 5).1).0 < a.len(),
        a.len() > 0 ==> 0 <= picked(base_input(a, values, d).1.session, a.len() as int).0 < a.len(),
    ensures
        next_draw(a, values, mutations, d) == next_draw(b, values, mutations, d),
{
    reveal(next_draw);
    choice_depends_on_scores(a, b, chanced(d.session, 1, 5).1);
}

/// Replay: sessions with the same seed on the same binary, without seeds of
/// their own, begin with the same corpus but for the identity of its texts.
pub proof fn seed_replays_the_seeding<B: VmBackend>(
    a: FuzzSession<B>,
    b: FuzzSession<B>,
    config: FuzzerConfig,
    seed: u64,
)
    requires
        config.seed == Some(seed),
        a.begun(config, Seq::empty()),
        b.begun(config, Seq::empty()),
    ensures
        same_scores(a.corpus@, b.corpus@),
        forall|i: int| 0 <= i < 6 ==> (#[trigger] a.corpus@[i]).same(b.corpus@[i]),
        a.draws().session == b.draws().session,
        a.draws().generator == b.draws().generator,
        a.draws().mutator == b.draws().mutator,
        a.coverage@.seen == b.coverage@.seen,
{
    assert(a.grown_from(config.wasm_bytes@, seeded(seed)));
    assert(b.grown_from(config.wasm_bytes@, seeded(seed)));
    assert forall|i: int| 0 <= i < 6 implies (#[trigger] a.corpus@[i]).same(b.corpus@[i]) by {
        assert(is_seed(
            b.corpus@[i],
            config.wasm_bytes@,
            b.input_gen.config,
            seeded(seed),
            Set::empty(),
            i as nat,
        ));
    }
}

}
