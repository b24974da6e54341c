//! How far minimisation gets: the granularity is doubled only where no chunk can be
//! left out, so that what is needed for a failure is all that is left.
use crate::delta_debug::{
    chunk_bounds, chunk_len, chunk_removed, chunked, embeds, first_reduction,
    first_reduction_fails, first_reduction_spends, minimisation, minimised,
    minimised_is_one_minimal, minimised_still_fails, remove_is_without, scanned_fails, subsequence,
    subsequence_reflexive, subsequence_without, without, Budget,
};
use vstd::arithmetic::div_mod::*;
use vstd::arithmetic::power2::*;
use vstd::prelude::*;

verus! {

/// Length of the chunks of `len` bytes, of which there are at most `count`.
pub open spec fn ceiling(len: int, count: int) -> int {
    (len + count - 1) / count
}

/// The bytes without one of `count` chunks.
pub open spec fn without_chunk(bytes: Seq<u8>, count: int, i: int) -> Seq<u8> {
    let size = ceiling(bytes.len() as int, count);
    if (i + 1) * size < bytes.len() {
        bytes.take(i * size) + bytes.skip((i + 1) * size)
    } else {
        bytes.take(i * size)
    }
}

/// A chunk is among the chunks of some bytes.
pub open spec fn is_chunk(bytes: Seq<u8>, count: int, i: int) -> bool {
    0 <= i < count && i * ceiling(bytes.len() as int, count) < bytes.len()
}

/// A chunk can be left out: what remains still fails, and is not too short.
pub open spec fn can_go(
    bytes: Seq<u8>,
    count: int,
    i: int,
    p: spec_fn(Seq<u8>) -> bool,
    budget: Budget,
) -> bool {
    let rest = without_chunk(bytes, count, i);
    rest.len() >= budget.min_bytes && p(rest)
}

/// None of `count` chunks can be left out.
pub open spec fn none_can_go(
    bytes: Seq<u8>,
    count: int,
    p: spec_fn(Seq<u8>) -> bool,
    budget: Budget,
) -> bool {
    forall|i: int| #[trigger] is_chunk(bytes, count, i) ==> !can_go(bytes, count, i, p, budget)
}

proof fn chunks_agree(bytes: Seq<u8>, count: int, i: int)
    requires
        2 <= count <= bytes.len(),
        0 <= i < count,
        i * ceiling(bytes.len() as int, count) < bytes.len(),
    ensures
        without_chunk(bytes, count, i) == chunk_removed(bytes, count, i),
{
    chunk_bounds(bytes.len() as int, count, i);
    assert(without_chunk(bytes, count, i) =~= chunk_removed(bytes, count, i));
}

proof fn later_chunks(size: int, i: int, j: int)
    requires
        0 <= i <= j,
        0 <= size,
    ensures
        i * size <= j * size,
{
    assert(i * size <= j * size) by (nonlinear_arith)
        requires
            0 <= i <= j,
            0 <= size,
    ;
}

proof fn pass_looks_at_all(
    bytes: Seq<u8>,
    count: int,
    i: int,
    trials: int,
    p: spec_fn(Seq<u8>) -> bool,
    budget: Budget,
)
    requires
        2 <= count <= bytes.len(),
        0 <= i <= count,
        first_reduction(bytes, count, i, trials, p, budget).0 is None,
        first_reduction(bytes, count, i, trials, p, budget).1 < budget.max_trials,
    ensures
        forall|j: int|
            j >= i && #[trigger] is_chunk(bytes, count, j) ==> !can_go(bytes, count, j, p, budget),
    decreases count - i,
{
    let size = ceiling(bytes.len() as int, count);
    if i < count {
        chunk_bounds(bytes.len() as int, count, i);
        if trials < budget.max_trials && i * size < bytes.len() {
            pass_looks_at_all(bytes, count, i + 1, trials + 1, p, budget);
            chunks_agree(bytes, count, i);
            assert forall|j: int|
                j >= i && #[trigger] is_chunk(bytes, count, j) implies !can_go(
                bytes,
                count,
                j,
                p,
                budget,
            ) by {
                if j > i {
                    assert(j >= i + 1);
                }
            }
        } else {
            assert forall|j: int| j >= i && #[trigger] is_chunk(bytes, count, j) implies false by {
                later_chunks(size, i, j);
            }
        }
    }
}

proof fn pass_leaves_a_part(
    bytes: Seq<u8>,
    count: int,
    i: int,
    trials: int,
    p: spec_fn(Seq<u8>) -> bool,
    budget: Budget,
    whole: Seq<u8>,
)
    requires
        2 <= count <= bytes.len(),
        0 <= i <= count,
        subsequence(bytes, whole),
    ensures
        first_reduction(bytes, count, i, trials, p, budget).0 matches Some(c) ==> subsequence(
            c,
            whole,
        ),
    decreases count - i,
{
    let size = chunk_len(bytes.len() as int, count);
    if i < count && trials < budget.max_trials && i * size < bytes.len() {
        chunk_bounds(bytes.len() as int, count, i);
        let end = (i + 1) * size;
        subsequence_without(
            bytes,
            whole,
            i * size,
            if end < bytes.len() {
                end
            } else {
                bytes.len() as int
            },
        );
        pass_leaves_a_part(bytes, count, i + 1, trials + 1, p, budget, whole);
    }
}

/// The number is two, four, eight and so on.
pub open spec fn doubled_from_two(g: int) -> bool {
    exists|k: nat| k >= 1 && g == #[trigger] pow2(k)
}

/// A number of chunks was given up: of some bytes that the result is a part of, and
/// that still failed unless they were the input, none of so many chunks could be
/// left out.
pub open spec fn given_up(
    input: Seq<u8>,
    result: Seq<u8>,
    count: int,
    p: spec_fn(Seq<u8>) -> bool,
    budget: Budget,
    bytes: Seq<u8>,
) -> bool {
    &&& subsequence(result, bytes)
    &&& bytes == input || p(bytes)
    &&& 2 <= count <= bytes.len()
    &&& none_can_go(bytes, count, p, budget)
}

proof fn coarse_from(
    input: Seq<u8>,
    bytes: Seq<u8>,
    g: int,
    trials: int,
    p: spec_fn(Seq<u8>) -> bool,
    budget: Budget,
    before: Seq<u8>,
) -> (r: (int, Seq<u8>))
    requires
        doubled_from_two(g),
        g >= 2,
        g == 2 || given_up(input, bytes, g / 2, p, budget, before),
        bytes == input || p(bytes),
        chunked(bytes, g, trials, p, budget).1 < budget.max_trials,
    ensures
        doubled_from_two(r.0),
        r.0 > chunked(bytes, g, trials, p, budget).0.len(),
        r.0 == 2 || given_up(
            input,
            chunked(bytes, g, trials, p, budget).0,
            r.0 / 2,
            p,
            budget,
            r.1,
        ),
    decreases budget.max_trials - trials,
{
    if 2 <= g <= bytes.len() && trials < budget.max_trials {
        let pass = first_reduction(bytes, g, 0, trials, p, budget);
        chunk_bounds(bytes.len() as int, g, 0);
        first_reduction_spends(bytes, g, 0, trials, p, budget);
        match pass.0 {
            Some(smaller) => {
                first_reduction_fails(bytes, g, 0, trials, p, budget);
                if g > 2 {
                    pass_leaves_a_part(bytes, g, 0, trials, p, budget, before);
                }
                coarse_from(input, smaller, g, pass.1, p, budget, before)
            },
            None => {
                chunk_phase_spends(bytes, g * 2, pass.1, p, budget);
                pass_looks_at_all(bytes, g, 0, trials, p, budget);
                subsequence_reflexive(bytes);
                let k = choose|k: nat| k >= 1 && g == #[trigger] pow2(k);
                lemma_pow2_unfold(k + 1);
                assert(g * 2 == pow2(k + 1));
                assert(given_up(input, bytes, g * 2 / 2, p, budget, bytes));
                coarse_from(input, bytes, g * 2, pass.1, p, budget, bytes)
            },
        }
    } else {
        (g, before)
    }
}

proof fn chunk_phase_spends(
    bytes: Seq<u8>,
    g: int,
    trials: int,
    p: spec_fn(Seq<u8>) -> bool,
    budget: Budget,
)
    requires
        2 <= g,
    ensures
        chunked(bytes, g, trials, p, budget).1 >= trials,
    decreases budget.max_trials - trials,
{
    if 2 <= g <= bytes.len() && trials < budget.max_trials {
        let pass = first_reduction(bytes, g, 0, trials, p, budget);
        chunk_bounds(bytes.len() as int, g, 0);
        first_reduction_spends(bytes, g, 0, trials, p, budget);
        match pass.0 {
            Some(smaller) => chunk_phase_spends(smaller, g, pass.1, p, budget),
            None => chunk_phase_spends(bytes, g * 2, pass.1, p, budget),
        }
    }
}

/// Coarse minimality: where the chunk phase ends with trials left, the number of
/// chunks has been doubled from two until there were more than bytes are left, and
/// the last number before was given up only when none of its chunks could be left
/// out.
pub proof fn coarse_minimality(input: Seq<u8>, p: spec_fn(Seq<u8>) -> bool, budget: Budget) -> (r: (
    int,
    Seq<u8>,
))
    requires
        chunked(input, 2, 0, p, budget).1 < budget.max_trials,
    ensures
        doubled_from_two(r.0),
        r.0 > chunked(input, 2, 0, p, budget).0.len(),
        r.0 == 2 || given_up(
            input,
            chunked(input, 2, 0, p, budget).0,
            r.0 / 2,
            p,
            budget,
            r.1,
        ),
{
    lemma2_to64();
    assert(2 == pow2(1));
    coarse_from(input, input, 2, 0, p, budget, input)
}

/// Number of trials that a pass over all chunks takes.
pub open spec fn chunk_count(bytes: Seq<u8>, count: int) -> int {
    ceiling(bytes.len() as int, ceiling(bytes.len() as int, count))
}

proof fn chunks_counted(bytes: Seq<u8>, count: int)
    requires
        2 <= count <= bytes.len(),
    ensures
        0 < ceiling(bytes.len() as int, count),
        0 < chunk_count(bytes, count) <= count,
        count < 2 * chunk_count(bytes, count),
        forall|i: int| #[trigger] is_chunk(bytes, count, i) <==> 0 <= i < chunk_count(bytes, count),
{
    let len = bytes.len() as int;
    let size = ceiling(len, count);
    let m = chunk_count(bytes, count);
    lemma_fundamental_div_mod(len + count - 1, count);
    lemma_mod_bound(len + count - 1, count);
    let r = (len + count - 1) % count;
    assert(len + count - 1 == count * size + r);
    assert(size >= 1 && count * size >= len && count * size < 2 * len) by (nonlinear_arith)
        requires
            len + count - 1 == count * size + r,
            0 <= r < count,
            2 <= count <= len,
    ;
    lemma_fundamental_div_mod(len + size - 1, size);
    lemma_mod_bound(len + size - 1, size);
    let q = (len + size - 1) % size;
    assert(len + size - 1 == size * m + q);
    assert((m - 1) * size < len && m * size >= len && m >= 1) by (nonlinear_arith)
        requires
            len + size - 1 == size * m + q,
            0 <= q < size,
            size >= 1,
            len >= 2,
    ;
    assert(m <= count) by (nonlinear_arith)
        requires
            (m - 1) * size < len,
            count * size >= len,
            size >= 1,
    ;
    assert(count < 2 * m) by (nonlinear_arith)
        requires
            m * size >= len,
            count * size < 2 * len,
            size >= 1,
    ;
    assert forall|i: int| #[trigger] is_chunk(bytes, count, i) <==> 0 <= i < m by {
        if 0 <= i < m {
            later_chunks(size, i, m - 1);
        } else if i >= m {
            later_chunks(size, m, i);
        }
    }
}

proof fn pass_finds_the_first(
    bytes: Seq<u8>,
    count: int,
    i: int,
    first: int,
    trials: int,
    p: spec_fn(Seq<u8>) -> bool,
    budget: Budget,
)
    requires
        2 <= count <= bytes.len(),
        0 <= i <= first,
        is_chunk(bytes, count, first),
        can_go(bytes, count, first, p, budget),
        forall|j: int|
            i <= j < first && #[trigger] is_chunk(bytes, count, j) ==> !can_go(
                bytes,
                count,
                j,
                p,
                budget,
            ),
        trials + first - i < budget.max_trials,
    ensures
        first_reduction(bytes, count, i, trials, p, budget) == (
            Some(without_chunk(bytes, count, first)),
            trials + first - i + 1,
        ),
    decreases first - i,
{
    chunks_counted(bytes, count);
    assert(is_chunk(bytes, count, i));
    chunks_agree(bytes, count, i);
    if i < first {
        pass_finds_the_first(bytes, count, i + 1, first, trials + 1, p, budget);
    }
}

proof fn pass_finds_none(
    bytes: Seq<u8>,
    count: int,
    i: int,
    trials: int,
    p: spec_fn(Seq<u8>) -> bool,
    budget: Budget,
)
    requires
        2 <= count <= bytes.len(),
        0 <= i <= chunk_count(bytes, count),
        none_can_go(bytes, count, p, budget),
        trials + chunk_count(bytes, count) - i <= budget.max_trials,
    ensures
        first_reduction(bytes, count, i, trials, p, budget) == (
            None::<Seq<u8>>,
            trials + chunk_count(bytes, count) - i,
        ),
    decreases chunk_count(bytes, count) - i,
{
    chunks_counted(bytes, count);
    if i < chunk_count(bytes, count) {
        assert(is_chunk(bytes, count, i));
        chunks_agree(bytes, count, i);
        pass_finds_none(bytes, count, i + 1, trials + 1, p, budget);
    } else {
        assert(!is_chunk(bytes, count, i));
    }
}

/// The first chunk that can go is left out, after one trial for each chunk up to it,
/// and the bytes that remain are cut into as many chunks again.
pub proof fn a_chunk_that_can_go_is_left_out(
    bytes: Seq<u8>,
    count: int,
    first: int,
    trials: int,
    p: spec_fn(Seq<u8>) -> bool,
    budget: Budget,
)
    requires
        2 <= count <= bytes.len(),
        is_chunk(bytes, count, first),
        can_go(bytes, count, first, p, budget),
        forall|j: int|
            0 <= j < first && #[trigger] is_chunk(bytes, count, j) ==> !can_go(
                bytes,
                count,
                j,
                p,
                budget,
            ),
        0 <= trials,
        trials + first < budget.max_trials,
    ensures
        chunked(bytes, count, trials, p, budget) == chunked(
            without_chunk(bytes, count, first),
            count,
            trials + first + 1,
            p,
            budget,
        ),
{
    pass_finds_the_first(bytes, count, 0, first, trials, p, budget);
}

/// Where no chunk can go, the number of chunks is doubled, after one trial for each
/// chunk.
pub proof fn chunks_are_halved_where_none_can_go(
    bytes: Seq<u8>,
    count: int,
    trials: int,
    p: spec_fn(Seq<u8>) -> bool,
    budget: Budget,
)
    requires
        2 <= count <= bytes.len(),
        none_can_go(bytes, count, p, budget),
        0 <= trials,
        trials + chunk_count(bytes, count) <= budget.max_trials,
    ensures
        chunked(bytes, count, trials, p, budget) == chunked(
            bytes,
            2 * count,
            trials + chunk_count(bytes, count),
            p,
            budget,
        ),
{
    chunks_counted(bytes, count);
    pass_finds_none(bytes, count, 0, trials, p, budget);
}

/// Exactly the inputs that have the core as a part fail.
pub open spec fn fails_by(core: Seq<u8>, p: spec_fn(Seq<u8>) -> bool) -> bool {
    forall|s: Seq<u8>| #[trigger] p(s) <==> subsequence(core, s)
}

proof fn core_survives(core: Seq<u8>, bytes: Seq<u8>, at: Seq<int>, start: int, end: int)
    requires
        embeds(core, bytes, at),
        0 <= start <= end <= bytes.len(),
        forall|j: int| 0 <= j < at.len() ==> #[trigger] at[j] < start || at[j] >= end,
    ensures
        subsequence(core, without(bytes, start, end)),
{
    let moved = at.map_values(
        |x: int|
            if x < start {
                x
            } else {
                x - (end - start)
            },
    );
    let rest = without(bytes, start, end);
    assert forall|j: int| 0 <= j < moved.len() implies 0 <= #[trigger] moved[j] < rest.len() by {
        assert(0 <= at[j] < bytes.len());
    }
    assert forall|i: int, j: int| 0 <= i < j < moved.len() implies #[trigger] moved[i]
        < #[trigger] moved[j] by {
        assert(at[i] < at[j]);
        assert(at[i] < start || at[i] >= end);
        assert(at[j] < start || at[j] >= end);
    }
    assert forall|j: int| 0 <= j < core.len() implies #[trigger] core[j] == rest[moved[j]] by {
        assert(core[j] == bytes[at[j]]);
        assert(at[j] < start || at[j] >= end);
        assert(0 <= at[j] < bytes.len());
    }
    assert(embeds(core, rest, moved));
}

proof fn chunk_meets_core(
    core: Seq<u8>,
    bytes: Seq<u8>,
    at: Seq<int>,
    count: int,
    i: int,
    p: spec_fn(Seq<u8>) -> bool,
    budget: Budget,
) -> (j: int)
    requires
        2 <= count <= bytes.len(),
        embeds(core, bytes, at),
        fails_by(core, p),
        budget.min_bytes <= core.len(),
        none_can_go(bytes, count, p, budget),
        is_chunk(bytes, count, i),
    ensures
        i <= j < core.len(),
        i * ceiling(bytes.len() as int, count) <= at[j] < (i + 1) * ceiling(
            bytes.len() as int,
            count,
        ),
    decreases i,
{
    let size = ceiling(bytes.len() as int, count);
    let start = i * size;
    chunk_bounds(bytes.len() as int, count, i);
    let end = if (i + 1) * size < bytes.len() {
        (i + 1) * size
    } else {
        bytes.len() as int
    };
    let rest = without_chunk(bytes, count, i);
    assert(rest =~= without(bytes, start, end));
    if forall|j: int| 0 <= j < at.len() ==> #[trigger] at[j] < start || at[j] >= end {
        core_survives(core, bytes, at, start, end);
        part_is_no_longer(core, rest);
        assert(p(rest));
        assert(can_go(bytes, count, i, p, budget));
        assert(false);
    }
    let j = choose|j: int| 0 <= j < at.len() && !(#[trigger] at[j] < start || at[j] >= end);
    if i > 0 {
        chunks_counted(bytes, count);
        assert(is_chunk(bytes, count, i - 1));
        let before = chunk_meets_core(core, bytes, at, count, i - 1, p, budget);
        assert(at[before] < at[j]);
        if j <= before {
            if j < before {
                assert(at[j] < at[before]);
            }
            assert(false);
        }
    }
    j
}

/// A part is no longer than the whole.
proof fn part_is_no_longer(part: Seq<u8>, whole: Seq<u8>)
    requires
        subsequence(part, whole),
    ensures
        part.len() <= whole.len(),
{
    let at = choose|at: Seq<int>| embeds(part, whole, at);
    if part.len() > 0 {
        places_grow(part, whole, at, part.len() - 1);
    }
}

proof fn places_grow(part: Seq<u8>, whole: Seq<u8>, at: Seq<int>, i: int)
    requires
        embeds(part, whole, at),
        0 <= i < part.len(),
    ensures
        at[i] >= i,
        whole.len() - at[i] >= part.len() - i || part.len() > whole.len(),
    decreases i,
{
    if i > 0 {
        places_grow(part, whole, at, i - 1);
        assert(at[i - 1] < at[i]);
    }
    places_fit(part, whole, at, i);
}

proof fn places_fit(part: Seq<u8>, whole: Seq<u8>, at: Seq<int>, i: int)
    requires
        embeds(part, whole, at),
        0 <= i < part.len(),
    ensures
        whole.len() - at[i] >= part.len() - i,
    decreases part.len() - i,
{
    if i < part.len() - 1 {
        places_fit(part, whole, at, i + 1);
        assert(at[i] < at[i + 1]);
    } else {
        assert(at[i] < whole.len());
    }
}

/// Where a failure takes a core of some bytes, and nothing else, the chunk phase
/// leaves fewer than four times as many bytes, unless it uses up the budget: however
/// long the input was.
pub proof fn chunks_reach_the_core(
    input: Seq<u8>,
    core: Seq<u8>,
    p: spec_fn(Seq<u8>) -> bool,
    budget: Budget,
)
    requires
        fails_by(core, p),
        subsequence(core, input),
        0 < core.len(),
        budget.min_bytes <= core.len(),
        chunked(input, 2, 0, p, budget).1 < budget.max_trials,
    ensures
        chunked(input, 2, 0, p, budget).0.len() < 4 * core.len(),
{
    let r = coarse_minimality(input, p, budget);
    if r.0 > 2 {
        let count = r.0 / 2;
        let bytes = r.1;
        assert(p(bytes));
        let at = choose|at: Seq<int>| embeds(core, bytes, at);
        chunks_counted(bytes, count);
        let m = chunk_count(bytes, count);
        assert(is_chunk(bytes, count, m - 1));
        let j = chunk_meets_core(core, bytes, at, count, m - 1, p, budget);
        assert(m <= core.len());
        let k = choose|k: nat| k >= 1 && r.0 == #[trigger] pow2(k);
        lemma_pow2_unfold(k);
        assert(r.0 == 2 * count);
    }
}

proof fn free_place(core: Seq<u8>, whole: Seq<u8>, at: Seq<int>, i: int) -> (place: int)
    requires
        embeds(core, whole, at),
        core.len() < whole.len(),
        0 <= i <= core.len(),
        forall|j: int| 0 <= j < i ==> #[trigger] at[j] == j,
    ensures
        0 <= place < whole.len(),
        forall|j: int| 0 <= j < at.len() ==> #[trigger] at[j] != place,
    decreases core.len() - i,
{
    if i == core.len() {
        i
    } else if at[i] == i {
        free_place(core, whole, at, i + 1)
    } else {
        places_grow(core, whole, at, i);
        assert forall|j: int| 0 <= j < at.len() implies #[trigger] at[j] != i by {
            if j > i {
                assert(at[i] < at[j]);
            }
        }
        i
    }
}

proof fn same_length_is_same(core: Seq<u8>, whole: Seq<u8>)
    requires
        subsequence(core, whole),
        core.len() == whole.len(),
    ensures
        core == whole,
{
    let at = choose|at: Seq<int>| embeds(core, whole, at);
    assert forall|i: int| 0 <= i < core.len() implies core[i] == whole[i] by {
        places_grow(core, whole, at, i);
        places_fit(core, whole, at, i);
        assert(core[i] == whole[at[i]]);
    }
    assert(core =~= whole);
}

/// Where a failure takes a core of some bytes, and nothing else, minimisation finds
/// the core, unless it uses up the budget.
pub proof fn minimisation_finds_the_core(
    input: Seq<u8>,
    core: Seq<u8>,
    p: spec_fn(Seq<u8>) -> bool,
    budget: Budget,
)
    requires
        fails_by(core, p),
        subsequence(core, input),
        budget.min_bytes <= core.len(),
        minimisation(input, p, budget).1 < budget.max_trials,
    ensures
        minimised(input, p, budget) == core,
{
    let result = minimised(input, p, budget);
    minimised_still_fails(input, p, budget);
    assert(p(input));
    assert(p(result));
    part_is_no_longer(core, result);
    if core.len() < result.len() {
        minimised_is_one_minimal(input, p, budget);
        let at = choose|at: Seq<int>| embeds(core, result, at);
        let place = free_place(core, result, at, 0);
        assert forall|j: int| 0 <= j < at.len() implies #[trigger] at[j] < place || at[j] >= place
            + 1 by {}
        core_survives(core, result, at, place, place + 1);
        remove_is_without(result, place);
        assert(p(result.remove(place)));
    } else {
        same_length_is_same(core, result);
    }
}

/// The byte phase goes on from what the chunk phase leaves, and never makes it longer:
/// where a failure takes a core of some bytes, and nothing else, fewer than four times
/// as many bytes are left however long the input was, once the chunk phase has come
/// to its end.
pub proof fn long_inputs_shrink_to_the_core(
    input: Seq<u8>,
    core: Seq<u8>,
    p: spec_fn(Seq<u8>) -> bool,
    budget: Budget,
)
    requires
        fails_by(core, p),
        subsequence(core, input),
        0 < core.len(),
        budget.min_bytes <= core.len(),
        chunked(input, 2, 0, p, budget).1 < budget.max_trials,
    ensures
        minimised(input, p, budget).len() <= chunked(input, 2, 0, p, budget).0.len(),
        minimised(input, p, budget).len() < 4 * core.len(),
{
    let coarse = chunked(input, 2, 0, p, budget);
    chunks_reach_the_core(input, core, p, budget);
    scanned_fails(coarse.0, 0, false, coarse.1, p, budget);
}

/// Minimisation never leaves more than its chunk phase does, and uses no fewer trials.
pub proof fn minimisation_begins_with_chunks(
    input: Seq<u8>,
    p: spec_fn(Seq<u8>) -> bool,
    budget: Budget,
)
    ensures
        minimised(input, p, budget).len() <= chunked(input, 2, 0, p, budget).0.len(),
        chunked(input, 2, 0, p, budget).1 >= budget.max_trials ==> minimised(input, p, budget)
            == chunked(input, 2, 0, p, budget).0,
{
    let coarse = chunked(input, 2, 0, p, budget);
    scanned_fails(coarse.0, 0, false, coarse.1, p, budget);
}

/// Exactly the inputs in which a byte occurs fail.
pub open spec fn fails_by_byte(b: u8, p: spec_fn(Seq<u8>) -> bool) -> bool {
    forall|s: Seq<u8>| #[trigger] p(s) <==> s.contains(b)
}

proof fn halves_are_left_out(
    bytes: Seq<u8>,
    b: u8,
    trials: int,
    p: spec_fn(Seq<u8>) -> bool,
    budget: Budget,
    j: nat,
)
    requires
        fails_by_byte(b, p),
        bytes.contains(b),
        budget.min_bytes <= 1,
        bytes.len() <= pow2(j),
        0 <= trials,
        trials + 2 * j <= budget.max_trials,
    ensures
        chunked(bytes, 2, trials, p, budget).0 == seq![b],
    decreases j,
{
    let at = choose|i: int| 0 <= i < bytes.len() && bytes[i] == b;
    assert(bytes[at] == b);
    if bytes.len() < 2 {
        assert(bytes =~= seq![b]);
    } else {
        if j == 0 {
            lemma2_to64();
            assert(false);
        }
        lemma_pow2_unfold(j);
        let len = bytes.len() as int;
        let size = ceiling(len, 2);
        let front = bytes.take(size);
        let back = bytes.skip(size);
        chunks_counted(bytes, 2);
        assert(size == (len + 1) / 2);
        assert(is_chunk(bytes, 2, 0) && is_chunk(bytes, 2, 1));
        assert(without_chunk(bytes, 2, 0) =~= back);
        assert(without_chunk(bytes, 2, 1) =~= front);
        if back.contains(b) {
            a_chunk_that_can_go_is_left_out(bytes, 2, 0, trials, p, budget);
            halves_are_left_out(back, b, trials + 1, p, budget, (j - 1) as nat);
        } else {
            assert(at < size) by {
                if at >= size {
                    assert(back[at - size] == b);
                }
            }
            assert(front[at] == b);
            a_chunk_that_can_go_is_left_out(bytes, 2, 1, trials, p, budget);
            halves_are_left_out(front, b, trials + 2, p, budget, (j - 1) as nat);
        }
    }
}

/// Where a failure takes one byte, an input of up to `2^j` bytes shrinks to that byte
/// within `2j` trials: each half without the byte is left out at once.
pub proof fn one_needed_byte_is_found(
    input: Seq<u8>,
    b: u8,
    p: spec_fn(Seq<u8>) -> bool,
    budget: Budget,
    j: nat,
)
    requires
        fails_by_byte(b, p),
        input.contains(b),
        budget.min_bytes <= 1,
        input.len() <= pow2(j),
        2 * j <= budget.max_trials,
    ensures
        minimised(input, p, budget) == seq![b],
{
    let coarse = chunked(input, 2, 0, p, budget);
    halves_are_left_out(input, b, 0, p, budget, j);
    scanned_fails(coarse.0, 0, false, coarse.1, p, budget);
    let result = minimised(input, p, budget);
    if result != coarse.0 {
        assert(result.contains(b));
        assert(result.len() == 0);
    }
}

}
