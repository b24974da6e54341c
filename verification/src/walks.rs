//! How coverage follows from an input: its first eight bytes drive a walk over the
//! blocks of the binary, and every block can be the first that it leads to.
use crate::corpus::score_of;
use crate::coverage_map::{counting_hits_the_slots, slot_of};
use crate::delta_debug::{minimised, minimised_still_fails, Budget};
use crate::mutation::{all_strategies, MutationStrategy};
use crate::orchestrator::{begins_like, coverage_seed, reached, FuzzSession, FuzzerReport};
use crate::persistent_vm::{ExecutionOutcome, VmBackend};
use crate::wasm_instrumenter::{
    block_after, block_count, code_size, sections_of, state_after, walk_edges, walk_length,
};
use vstd::arithmetic::div_mod::*;
use vstd::bytes::*;
use vstd::prelude::*;

verus! {

proof fn multiplier_is_odd()
    ensures
        6364136223846793005int * 13877824140714322085 == 1 + 0x1_0000_0000_0000_0000
            * 4787856489426250814,
{
}

proof fn step_back(target: int) -> (seed: u64)
    requires
        0 <= target < 0x1_0000_0000_0000_0000,
    ensures
        (seed * 6364136223846793005 + 1442695040888963407) % 0x1_0000_0000_0000_0000 == target,
{
    let m: int = 0x1_0000_0000_0000_0000;
    let a: int = 6364136223846793005;
    let inverse: int = 13877824140714322085;
    let c: int = 1442695040888963407;
    let d = target - c;
    let seed = (d * inverse) % m;
    lemma_mod_bound(d * inverse, m);
    lemma_fundamental_div_mod(d * inverse, m);
    let q = d * inverse / m;
    multiplier_is_odd();
    let k: int = 4787856489426250814;
    assert(d * inverse == m * q + seed);
    assert(seed * a + c == target + m * (d * k - q * a)) by (nonlinear_arith)
        requires
            d * inverse == m * q + seed,
            a * inverse == 1 + m * k,
            d == target - c,
    ;
    lemma_mod_multiples_vanish(d * k - q * a, target, m);
    lemma_small_mod(target as nat, m as nat);
    seed as u64
}

/// Every block can be the first that a walk leads to: some seed leads there.
pub proof fn every_block_can_be_reached(block: u32, blocks: u32) -> (seed: u64)
    requires
        block < blocks <= 0x8000_0000,
    ensures
        block_after(seed, blocks, 1) == block,
{
    let target = block * 0x2_0000_0000;
    let seed = step_back(target as int);
    reveal_with_fuel(state_after, 2);
    assert(state_after(seed, 1) == target);
    assert(target / 0x2_0000_0000 == block);
    lemma_small_mod(block as nat, blocks as nat);
    seed
}

/// A walk begins in block zero and takes half as many steps as there are blocks, and
/// one at the least. Each edge tells from one block to the next, and the walk goes on
/// from a step as it would from the state after it.
pub proof fn edges_lead_from_block_to_block(seed: u64, blocks: u32, steps: nat, i: int)
    requires
        0 <= i < steps,
    ensures
        walk_edges(seed, blocks, steps).len() == steps,
        block_after(seed, blocks, 0) == 0,
        walk_edges(seed, blocks, steps)[i] ^ block_after(seed, blocks, i as nat) == block_after(
            seed,
            blocks,
            (i + 1) as nat,
        ),
        state_after(seed, (i + 1) as nat) == state_after(state_after(seed, 1), i as nat),
        2 * walk_length(blocks as nat) <= blocks || walk_length(blocks as nat) == 1,
        2 * walk_length(blocks as nat) + 1 >= blocks,
{
    let a = block_after(seed, blocks, i as nat);
    let b = block_after(seed, blocks, (i + 1) as nat);
    assert((a ^ b) ^ a == b) by (bit_vector);
    states_go_on(seed, i as nat);
}

proof fn states_go_on(seed: u64, n: nat)
    ensures
        state_after(seed, n + 1) == state_after(state_after(seed, 1), n),
    decreases n,
{
    reveal_with_fuel(state_after, 2);
    if n > 0 {
        states_go_on(seed, (n - 1) as nat);
    }
}

/// An input that begins with a number in little-endian order has it as its seed; a
/// shorter one has zero. What follows the first eight bytes does not count.
pub proof fn inputs_stand_for_their_first_bytes(seed: u64, rest: Seq<u8>, short: Seq<u8>)
    requires
        short.len() < 8,
    ensures
        coverage_seed(spec_u64_to_le_bytes(seed) + rest) == seed,
        coverage_seed(short) == 0,
{
    lemma_auto_spec_u64_to_from_le_bytes();
    let t = spec_u64_to_le_bytes(seed) + rest;
    assert(t.take(8) =~= spec_u64_to_le_bytes(seed));
}

/// For every block of a binary there is an input that reaches the slot of the block:
/// coverage depends on the input, and all of it is within reach.
pub proof fn some_input_reaches_each_block(wasm: Seq<u8>, block: u32) -> (input: Seq<u8>)
    requires
        block < block_count(code_size(sections_of(wasm))) <= 0x8000_0000,
    ensures
        reached(wasm, coverage_seed(input)).contains(block as int % 65536),
{
    let blocks = block_count(code_size(sections_of(wasm)));
    let count = (blocks % 0x1_0000_0000) as u32;
    let seed = every_block_can_be_reached(block, count);
    let input = spec_u64_to_le_bytes(seed) + Seq::<u8>::empty();
    inputs_stand_for_their_first_bytes(seed, Seq::empty(), Seq::empty());
    let edges = walk_edges(seed, count, walk_length(blocks));
    edges_lead_from_block_to_block(seed, count, walk_length(blocks), 0);
    let first = edges[0];
    assert(first ^ 0u32 == first) by (bit_vector);
    assert(slot_of(first) == block as int % 65536);
    counting_hits_the_slots(edges);
    input
}

/// An executed input joins the corpus exactly if it reaches a slot that was not seen
/// before or its return value holds a byte 255. Every slot that it reaches is seen
/// from then on, and no slot is forgotten.
pub proof fn new_coverage_joins_the_corpus<B: VmBackend>(
    before: FuzzSession<B>,
    after: FuzzSession<B>,
    input: Seq<u8>,
    strategy: MutationStrategy,
    outcome: ExecutionOutcome,
    exec_ns: u64,
    interesting: bool,
    slot: int,
)
    requires
        after.learned(before, input, strategy, outcome, exec_ns, interesting),
        before.coverage@.seen.finite(),
        reached(before.wasm_bytes@, coverage_seed(input)).finite(),
    ensures
        reached(before.wasm_bytes@, coverage_seed(input)).contains(slot)
            && !before.coverage@.seen.contains(slot) ==> interesting,
        interesting ==> {
            ||| exists|fresh: int|
                reached(before.wasm_bytes@, coverage_seed(input)).contains(fresh)
                    && !#[trigger] before.coverage@.seen.contains(fresh)
            ||| outcome.return_value matches Some(v) && exists|i: int|
                0 <= i < v@.len() && #[trigger] v@[i] == 255
        },
        (outcome.return_value matches Some(v) && exists|i: int|
            0 <= i < v@.len() && #[trigger] v@[i] == 255) ==> interesting,
        after.coverage@.seen.contains(slot) <==> before.coverage@.seen.contains(slot) || reached(
            before.wasm_bytes@,
            coverage_seed(input),
        ).contains(slot),
        after.corpus@.len() == before.corpus@.len() + (if interesting {
            1int
        } else {
            0
        }),
        forall|i: int|
            0 <= i < before.corpus@.len() ==> #[trigger] after.corpus@[i] == before.corpus@[i],
        interesting ==> {
            let entry = after.corpus@.last();
            let fresh = reached(before.wasm_bytes@, coverage_seed(input)).difference(
                before.coverage@.seen,
            ).len();
            &&& entry.bytes@ == input
            &&& entry.execution_time_ns == exec_ns
            &&& entry.new_edges_discovered == fresh
            &&& entry.performance_score == score_of(input.len(), exec_ns as nat, fresh)
            &&& entry.id == before.corpus@.len()
            &&& entry.origin@ == strategy.title()
        },
        before.effectiveness@.len() == 15 && before.effectiveness@[strategy.place()] < u64::MAX
            ==> forall|i: int|
            0 <= i < 15 ==> #[trigger] after.effectiveness@[i] == before.effectiveness@[i] + (
            if interesting && all_strategies()[i] == strategy {
                1int
            } else {
                0
            }),
{
    reveal(FuzzSession::learned);
    let hits = reached(before.wasm_bytes@, coverage_seed(input));
    let fresh = hits.difference(before.coverage@.seen);
    assert(fresh.finite()) by {
        vstd::set_lib::lemma_set_difference_len(hits, before.coverage@.seen);
    }
    if fresh.len() == 0 {
        assert(fresh =~= Set::empty());
        assert(!fresh.contains(slot));
    } else {
        let x = fresh.choose();
        assert(fresh.contains(x));
        assert(!before.coverage@.seen.contains(x));
    }
    if interesting {
        assert forall|i: int| 0 <= i < before.corpus@.len() implies #[trigger] after.corpus@[i]
            == before.corpus@[i] by {
            assert(after.corpus@.drop_last()[i] == after.corpus@[i]);
        }
    }
}

/// A crash is counted, an execution without one is not; a crash that is reported has a
/// minimal input that is no longer than the input and begins with the same byte.
pub proof fn crashes_are_triaged<B: VmBackend>(
    before: FuzzSession<B>,
    after: FuzzSession<B>,
    input: Seq<u8>,
    outcome: ExecutionOutcome,
    reported: bool,
)
    requires
        after.triaged(before, input, outcome, reported),
    ensures
        after.triage.crashes() == before.triage.crashes() + (if outcome.success {
            0int
        } else {
            1
        }),
        after.crash_reports@.len() == before.crash_reports@.len() + (if reported {
            1int
        } else {
            0
        }),
        reported ==> !outcome.success,
        reported && input.len() > 0 ==> {
            let minimal = after.crash_reports@.last().minimal_input@;
            &&& 0 < minimal.len() <= input.len()
            &&& minimal[0] == input[0]
        },
        reported ==> after.crash_reports@.last().raw_error@ == (match outcome.error {
            Some(text) => text@,
            None => "unknown error"@,
        }),
        reported ==> after.crash_reports@.last().original_input@ == input,
{
    reveal(FuzzSession::triaged);
    if reported {
        let p = begins_like(input);
        let budget = Budget { max_trials: 256, min_bytes: 1 };
        minimised_still_fails(input, p, budget);
        if input.len() > 0 {
            assert(p(input));
            assert(p(minimised(input, p, budget)));
        }
    }
}

/// A report tells what its session has: the executions and their rate over the time,
/// the entries, the edges and their share of the map, and the crashes.
pub proof fn reports_tell_their_session<B: VmBackend>(
    session: FuzzSession<B>,
    at_ns: u64,
    report: FuzzerReport,
)
    requires
        session.reported_by(at_ns, report),
        session.coverage@.seen.len() <= 65536,
    ensures
        report.total_executions == session.executions,
        report.session_duration_ns == at_ns,
        report.executions_per_second.numerator * at_ns == session.executions * 1_000_000_000
            * report.executions_per_second.denominator || at_ns == 0,
        report.corpus_entries == session.corpus@.len(),
        report.total_edges_found == session.coverage@.seen.len(),
        report.coverage_density.numerator * 65536 == session.coverage@.seen.len()
            * report.coverage_density.denominator,
        report.unique_crashes == session.triage@.dom().len(),
        report.total_crashes == session.triage.crashes(),
        report.crash_reports@ == session.crash_reports@,
        report.strategy_effectiveness@ == session.effectiveness@,
{
}

/// A session is over when as many inputs were executed as it may execute, or its time
/// is up, or the machine could not be reset, or its counters are full; and not before.
pub proof fn sessions_end_by_their_budgets<B: VmBackend>(session: FuzzSession<B>, at_ns: u64)
    ensures
        session.max_executions == Some(session.executions) ==> session.ends(at_ns),
        session.timeout_ns == Some(at_ns) ==> session.ends(at_ns),
        session.failed ==> session.ends(at_ns),
        !session.failed && (session.max_executions matches Some(max) ==> session.executions < max)
            && (session.timeout_ns matches Some(end) ==> at_ns < end) && session.executions
            < u64::MAX && session.mutator.stats.total_mutations < u64::MAX - 129 ==> !session.ends(
            at_ns,
        ),
{
}

}
