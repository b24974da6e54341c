//! Delta debugging: shrinking an input while it still reproduces a failure.
//!
//! The first phase removes chunks, at ever finer granularity; the second one
//! removes single bytes, and starts over until no byte can go. Both share a
//! budget of trials.
use vstd::prelude::*;
use vstd::slice::*;

verus! {

/// Limits of a minimisation.
#[derive(Debug, Clone, Copy, PartialEq, Eq)]
pub struct Budget {
    /// Number of candidates that may be tried.
    pub max_trials: usize,
    /// Inputs are not shrunk below this length.
    pub min_bytes: usize,
}

/// `reproduces` answers every candidate as `p` does.
pub open spec fn answers<F: FnMut(&[u8]) -> bool>(
    reproduces: F,
    p: spec_fn(Seq<u8>) -> bool,
) -> bool {
    forall|c: &[u8], r: bool| #[trigger] call_ensures(reproduces, (c,), r) ==> r == p(c@)
}

/// `reproduces` may have answered that `bytes` still fails.
pub open spec fn confirmed<F: FnMut(&[u8]) -> bool>(reproduces: F, bytes: Seq<u8>) -> bool {
    exists|c: &[u8]| c@ == bytes && #[trigger] call_ensures(reproduces, (c,), true)
}

/// `bytes` without the positions from `start` to `end`.
pub open spec fn without(bytes: Seq<u8>, start: int, end: int) -> Seq<u8> {
    bytes.take(start) + bytes.skip(end)
}

/// `part` arises from `whole` by leaving bytes out: `at` gives the position in
/// `whole` of each byte of `part`.
pub open spec fn embeds(part: Seq<u8>, whole: Seq<u8>, at: Seq<int>) -> bool {
    &&& at.len() == part.len()
    &&& forall|i: int| 0 <= i < at.len() ==> 0 <= #[trigger] at[i] < whole.len()
    &&& forall|i: int, j: int| 0 <= i < j < at.len() ==> #[trigger] at[i] < #[trigger] at[j]
    &&& forall|i: int| 0 <= i < part.len() ==> #[trigger] part[i] == whole[at[i]]
}

/// `part` is a subsequence of `whole`.
pub open spec fn subsequence(part: Seq<u8>, whole: Seq<u8>) -> bool {
    exists|at: Seq<int>| #[trigger] embeds(part, whole, at)
}

/// A candidate that a minimisation may ask about: a part of the input that is
/// shorter than it and not below the minimum length.
pub open spec fn candidate_of(part: Seq<u8>, input: Seq<u8>, budget: Budget) -> bool {
    &&& budget.max_trials > 0
    &&& subsequence(part, input)
    &&& part.len() < input.len()
    &&& part.len() >= budget.min_bytes
}

/// `reproduces` can be asked about the candidates of a minimisation; it need not
/// answer for anything else.
pub open spec fn askable<F: FnMut(&[u8]) -> bool>(
    reproduces: F,
    input: Seq<u8>,
    budget: Budget,
) -> bool {
    forall|c: &[u8]|
        candidate_of(c@, input, budget) ==> #[trigger] call_requires(reproduces, (c,))
}

/// Length of a chunk when `len` bytes are cut into `granularity` chunks.
pub open spec fn chunk_len(len: int, granularity: int) -> int {
    (len + granularity - 1) / granularity
}

/// The candidate that leaves out chunk `i`.
pub open spec fn chunk_removed(bytes: Seq<u8>, granularity: int, i: int) -> Seq<u8> {
    let size = chunk_len(bytes.len() as int, granularity);
    let end = (i + 1) * size;
    without(bytes, i * size, if end < bytes.len() { end } else { bytes.len() as int })
}

/// Tries to leave out chunk `i` or a later one: the first candidate that still
/// fails, if any, and the trials used so far.
pub open spec fn first_reduction(
    bytes: Seq<u8>,
    granularity: int,
    i: int,
    trials: int,
    p: spec_fn(Seq<u8>) -> bool,
    budget: Budget,
) -> (Option<Seq<u8>>, int)
    decreases granularity - i,
{
    if i >= granularity || trials >= budget.max_trials || i * chunk_len(
        bytes.len() as int,
        granularity,
    ) >= bytes.len() {
        (None, trials)
    } else {
        let candidate = chunk_removed(bytes, granularity, i);
        if candidate.len() >= budget.min_bytes && p(candidate) {
            (Some(candidate), trials + 1)
        } else {
            first_reduction(bytes, granularity, i + 1, trials + 1, p, budget)
        }
    }
}

/// A pass over the chunks stays within the budget, and uses at least one trial
/// where one is left.
pub proof fn first_reduction_spends(
    bytes: Seq<u8>,
    granularity: int,
    i: int,
    trials: int,
    p: spec_fn(Seq<u8>) -> bool,
    budget: Budget,
)
    ensures
        first_reduction(bytes, granularity, i, trials, p, budget).1 >= trials,
        trials <= budget.max_trials ==> first_reduction(
            bytes,
            granularity,
            i,
            trials,
            p,
            budget,
        ).1 <= budget.max_trials,
        i < granularity && trials < budget.max_trials && i * chunk_len(
            bytes.len() as int,
            granularity,
        ) < bytes.len() ==> first_reduction(bytes, granularity, i, trials, p, budget).1 > trials,
    decreases granularity - i,
{
    if i < granularity {
        first_reduction_spends(bytes, granularity, i + 1, trials + 1, p, budget);
    }
}

/// The chunk phase from the given state: its result and the trials used.
pub open spec fn chunked(
    bytes: Seq<u8>,
    granularity: int,
    trials: int,
    p: spec_fn(Seq<u8>) -> bool,
    budget: Budget,
) -> (Seq<u8>, int)
    decreases budget.max_trials - trials,
{
    if 2 <= granularity <= bytes.len() && trials < budget.max_trials {
        let pass = first_reduction(bytes, granularity, 0, trials, p, budget);
        proof {
            first_reduction_spends(bytes, granularity, 0, trials, p, budget);
        }
        match pass.0 {
            Some(smaller) => chunked(smaller, granularity, pass.1, p, budget),
            None => chunked(bytes, granularity * 2, pass.1, p, budget),
        }
    } else {
        (bytes, trials)
    }
}

/// The byte phase from the given state: its result and the trials used. A scan
/// that has removed a byte is followed by another one from the start.
pub open spec fn scanned(
    bytes: Seq<u8>,
    pos: int,
    removed: bool,
    trials: int,
    p: spec_fn(Seq<u8>) -> bool,
    budget: Budget,
) -> (Seq<u8>, int)
    decreases
            budget.max_trials - trials,
            if removed {
                1int
            } else {
                0
            },
{
    if trials >= budget.max_trials || bytes.len() <= budget.min_bytes {
        (bytes, trials)
    } else if pos < bytes.len() {
        let candidate = bytes.remove(pos);
        if p(candidate) {
            scanned(candidate, pos, true, trials + 1, p, budget)
        } else {
            scanned(bytes, pos + 1, removed, trials + 1, p, budget)
        }
    } else if removed {
        scanned(bytes, 0, false, trials, p, budget)
    } else {
        (bytes, trials)
    }
}

/// What minimisation makes of `input` when exactly the inputs in `p` fail, and
/// the trials that it used.
pub open spec fn minimisation(
    input: Seq<u8>,
    p: spec_fn(Seq<u8>) -> bool,
    budget: Budget,
) -> (Seq<u8>, int) {
    let coarse = chunked(input, 2, 0, p, budget);
    scanned(coarse.0, 0, false, coarse.1, p, budget)
}

/// What minimisation makes of `input` when exactly the inputs in `p` fail.
pub open spec fn minimised(
    input: Seq<u8>,
    p: spec_fn(Seq<u8>) -> bool,
    budget: Budget,
) -> Seq<u8> {
    minimisation(input, p, budget).0
}

/// Every input is a part of itself.
pub proof fn subsequence_reflexive(bytes: Seq<u8>)
    ensures
        subsequence(bytes, bytes),
{
    assert(embeds(bytes, bytes, Seq::new(bytes.len(), |i: int| i)));
}

/// A part stays one when bytes are left out of it.
pub proof fn subsequence_without(part: Seq<u8>, whole: Seq<u8>, start: int, end: int)
    requires
        subsequence(part, whole),
        0 <= start <= end <= part.len(),
    ensures
        subsequence(without(part, start, end), whole),
{
    let at = choose|at: Seq<int>| embeds(part, whole, at);
    assert(embeds(without(part, start, end), whole, at.take(start) + at.skip(end)));
}

/// Removing a byte leaves out the bytes from its place to the next.
pub proof fn remove_is_without(bytes: Seq<u8>, pos: int)
    requires
        0 <= pos < bytes.len(),
    ensures
        bytes.remove(pos) == without(bytes, pos, pos + 1),
{
    assert(bytes.remove(pos) =~= without(bytes, pos, pos + 1));
}

fn leave_out(bytes: &Vec<u8>, start: usize, end: usize) -> (rest: Vec<u8>)
    requires
        start <= end <= bytes@.len(),
    ensures
        rest@ == without(bytes@, start as int, end as int),
{
    let mut rest: Vec<u8> = slice_to_vec(slice_subrange(bytes.as_slice(), 0, start));
    let mut tail: Vec<u8> = slice_to_vec(slice_subrange(bytes.as_slice(), end, bytes.len()));
    rest.append(&mut tail);
    assert(rest@ =~= without(bytes@, start as int, end as int));
    rest
}

/// What holds of every stage of a minimisation, however `reproduces` answers.
pub open spec fn stage<F: FnMut(&[u8]) -> bool>(
    reproduces: F,
    input: Seq<u8>,
    bytes: Seq<u8>,
    budget: Budget,
) -> bool {
    &&& subsequence(bytes, input)
    &&& bytes == input || (confirmed(reproduces, bytes) && bytes.len() >= budget.min_bytes
        && bytes.len() < input.len())
}

/// Where a chunk begins and ends.
pub proof fn chunk_bounds(len: int, granularity: int, i: int)
    requires
        2 <= granularity <= len,
        0 <= i < granularity,
    ensures
        0 < chunk_len(len, granularity),
        0 <= i * chunk_len(len, granularity),
        i * chunk_len(len, granularity) < (i + 1) * chunk_len(len, granularity) <= len + granularity
            - 1,
{
    let size = chunk_len(len, granularity);
    assert(0 < size && granularity * size <= len + granularity - 1) by (nonlinear_arith)
        requires
            size == (len + granularity - 1) / granularity,
            2 <= granularity <= len,
    ;
    assert(0 <= i * size && i * size < (i + 1) * size && (i + 1) * size <= granularity * size)
        by (nonlinear_arith)
        requires
            0 < size,
            0 <= i < granularity,
    ;
}

/// Shrinks `input` while `reproduces` holds of the shrunk input.
///
/// With answers that depend on the candidate alone the result is
/// [`minimised`]. Whatever the answers, the result is a subsequence of the
/// input: the input itself, or a shorter one that was confirmed to fail and is
/// not below the minimum length.
pub fn minimise<F: FnMut(&[u8]) -> bool>(input: &[u8], reproduces: &mut F, budget: Budget) -> (result:
    Vec<u8>)
    requires
        askable(*old(reproduces), input@, budget),
    ensures
        *final(reproduces) == *old(reproduces),
        stage(*old(reproduces), input@, result@, budget),
        budget.max_trials == 0 ==> result@ == input@,
        forall|p: spec_fn(Seq<u8>) -> bool|
            #[trigger] answers(*old(reproduces), p) ==> result@ == minimised(input@, p, budget),
{
    let mut current: Vec<u8> = slice_to_vec(input);
    let mut trials: usize = 0;
    let mut granularity: u128 = 2;
    let _size: usize = input.len();
    proof {
        subsequence_reflexive(input@);
    }
    while granularity <= current.len() as u128 && trials < budget.max_trials
        invariant
            askable(*reproduces, input@, budget),
            *reproduces == *old(reproduces),
            input@.len() <= usize::MAX,
            2 <= granularity,
            trials <= budget.max_trials,
            stage(*reproduces, input@, current@, budget),
            trials == 0 ==> current@ == input@,
            forall|p: spec_fn(Seq<u8>) -> bool| #[trigger]
                answers(*reproduces, p) ==> chunked(input@, 2, 0, p, budget) == chunked(
                    current@,
                    granularity as int,
                    trials as int,
                    p,
                    budget,
                ),
        decreases budget.max_trials - trials,
    {
        let ghost before = current@;
        let ghost spent = trials;
        let size: u128 = (current.len() as u128 + granularity - 1) / granularity;
        let mut reduced: bool = false;
        let mut i: u128 = 0;
        proof {
            chunk_bounds(before.len() as int, granularity as int, 0);
        }
        while i < granularity && !reduced && trials < budget.max_trials && i * size
            < current.len() as u128
            invariant
                askable(*reproduces, input@, budget),
                *reproduces == *old(reproduces),
                input@.len() <= usize::MAX,
                2 <= granularity <= before.len(),
                before.len() <= input@.len(),
                size == chunk_len(before.len() as int, granularity as int),
                0 <= i <= granularity,
                0 <= i * size <= before.len() + granularity,
                trials <= budget.max_trials,
                spent < budget.max_trials,
                i > 0 ==> trials > spent,
                i == 0 ==> trials == spent && !reduced,
                stage(*reproduces, input@, before, budget),
                stage(*reproduces, input@, current@, budget),
                !reduced ==> current@ == before,
                !reduced ==> forall|p: spec_fn(Seq<u8>) -> bool| #[trigger]
                    answers(*reproduces, p) ==> first_reduction(
                        before,
                        granularity as int,
                        0,
                        spent as int,
                        p,
                        budget,
                    ) == first_reduction(
                        before,
                        granularity as int,
                        i as int,
                        trials as int,
                        p,
                        budget,
                    ),
                reduced ==> forall|p: spec_fn(Seq<u8>) -> bool| #[trigger]
                    answers(*reproduces, p) ==> first_reduction(
                        before,
                        granularity as int,
                        0,
                        spent as int,
                        p,
                        budget,
                    ) == (Some(current@), trials as int),
            decreases granularity - i,
        {
            proof {
                chunk_bounds(before.len() as int, granularity as int, i as int);
            }
            let start: usize = (i * size) as usize;
            let next: u128 = (i + 1) * size;
            let end: usize = if next < current.len() as u128 {
                next as usize
            } else {
                current.len()
            };
            let candidate: Vec<u8> = leave_out(&current, start, end);
            proof {
                assert(candidate@ == chunk_removed(before, granularity as int, i as int));
                subsequence_without(before, input@, start as int, end as int);
            }
            if candidate.len() >= budget.min_bytes {
                let hit: bool = reproduces(candidate.as_slice());
                if hit {
                    assert(confirmed(*reproduces, candidate@));
                    current = candidate;
                    reduced = true;
                }
            }
            trials = trials + 1;
            i = i + 1;
        }
        if !reduced {
            granularity = granularity * 2;
        }
        proof {
            assert forall|p: spec_fn(Seq<u8>) -> bool| #[trigger]
                answers(*reproduces, p) implies chunked(input@, 2, 0, p, budget) == chunked(
                current@,
                granularity as int,
                trials as int,
                p,
                budget,
            ) by {
                first_reduction_spends(before, granularity as int, 0, spent as int, p, budget);
            }
        }
    }
    let mut pos: usize = 0;
    let mut removed: bool = false;
    while trials < budget.max_trials && current.len() > budget.min_bytes && (pos < current.len()
        || removed)
        invariant
            askable(*reproduces, input@, budget),
            *reproduces == *old(reproduces),
            trials <= budget.max_trials,
            pos <= current@.len(),
            stage(*reproduces, input@, current@, budget),
            trials == 0 ==> current@ == input@,
            forall|p: spec_fn(Seq<u8>) -> bool| #[trigger]
                answers(*reproduces, p) ==> minimisation(input@, p, budget) == scanned(
                    current@,
                    pos as int,
                    removed,
                    trials as int,
                    p,
                    budget,
                ),
        decreases
                budget.max_trials - trials,
                if removed {
                    1int
                } else {
                    0
                },
    {
        if pos < current.len() {
            proof {
                remove_is_without(current@, pos as int);
                subsequence_without(current@, input@, pos as int, pos + 1);
            }
            let candidate: Vec<u8> = leave_out(&current, pos, pos + 1);
            let hit: bool = reproduces(candidate.as_slice());
            if hit {
                assert(confirmed(*reproduces, candidate@));
                current = candidate;
                removed = true;
            } else {
                pos = pos + 1;
            }
            trials = trials + 1;
        } else {
            pos = 0;
            removed = false;
        }
    }
    current
}

/// What a pass finds still fails, is shorter, and is not below the minimum length.
pub proof fn first_reduction_fails(
    bytes: Seq<u8>,
    granularity: int,
    i: int,
    trials: int,
    p: spec_fn(Seq<u8>) -> bool,
    budget: Budget,
)
    requires
        0 <= i,
        2 <= granularity <= bytes.len(),
    ensures
        first_reduction(bytes, granularity, i, trials, p, budget).0 matches Some(c) ==> p(c)
            && c.len() < bytes.len() && c.len() >= budget.min_bytes,
    decreases granularity - i,
{
    if i < granularity {
        first_reduction_fails(bytes, granularity, i + 1, trials + 1, p, budget);
        chunk_bounds(bytes.len() as int, granularity, i);
    }
}

/// What the chunk phase gives is the input, or fails and is shorter.
pub proof fn chunked_fails(
    bytes: Seq<u8>,
    granularity: int,
    trials: int,
    p: spec_fn(Seq<u8>) -> bool,
    budget: Budget,
)
    ensures
        ({
            let r = chunked(bytes, granularity, trials, p, budget).0;
            r == bytes || (p(r) && r.len() < bytes.len() && r.len() >= budget.min_bytes)
        }),
    decreases budget.max_trials - trials,
{
    if 2 <= granularity <= bytes.len() && trials < budget.max_trials {
        let pass = first_reduction(bytes, granularity, 0, trials, p, budget);
        first_reduction_spends(bytes, granularity, 0, trials, p, budget);
        first_reduction_fails(bytes, granularity, 0, trials, p, budget);
        match pass.0 {
            Some(smaller) => chunked_fails(smaller, granularity, pass.1, p, budget),
            None => chunked_fails(bytes, granularity * 2, pass.1, p, budget),
        }
    }
}

/// What the byte phase gives is what it began with, or fails and is shorter.
pub proof fn scanned_fails(
    bytes: Seq<u8>,
    pos: int,
    removed: bool,
    trials: int,
    p: spec_fn(Seq<u8>) -> bool,
    budget: Budget,
)
    requires
        0 <= pos,
    ensures
        ({
            let r = scanned(bytes, pos, removed, trials, p, budget).0;
            r == bytes || (p(r) && r.len() < bytes.len() && r.len() >= budget.min_bytes)
        }),
    decreases
            budget.max_trials - trials,
            if removed {
                1int
            } else {
                0
            },
{
    if trials < budget.max_trials && bytes.len() > budget.min_bytes {
        if pos < bytes.len() {
            if p(bytes.remove(pos)) {
                scanned_fails(bytes.remove(pos), pos, true, trials + 1, p, budget);
            } else {
                scanned_fails(bytes, pos + 1, removed, trials + 1, p, budget);
            }
        } else if removed {
            scanned_fails(bytes, 0, false, trials, p, budget);
        }
    }
}

/// A minimised input still fails if the input did; it is the input itself or a
/// shorter one that fails and is not below the minimum length.
pub proof fn minimised_still_fails(input: Seq<u8>, p: spec_fn(Seq<u8>) -> bool, budget: Budget)
    ensures
        p(input) ==> p(minimised(input, p, budget)),
        minimised(input, p, budget) == input || (p(minimised(input, p, budget)) && minimised(
            input,
            p,
            budget,
        ).len() < input.len() && minimised(input, p, budget).len() >= budget.min_bytes),
{
    let coarse = chunked(input, 2, 0, p, budget);
    chunked_fails(input, 2, 0, p, budget);
    scanned_fails(coarse.0, 0, false, coarse.1, p, budget);
}

/// An input of which no part fails is left as it is.
pub proof fn nothing_smaller_fails(input: Seq<u8>, p: spec_fn(Seq<u8>) -> bool, budget: Budget)
    requires
        forall|c: Seq<u8>| c.len() < input.len() ==> !#[trigger] p(c),
    ensures
        minimised(input, p, budget) == input,
{
    minimised_still_fails(input, p, budget);
}

proof fn scanned_is_minimal(
    bytes: Seq<u8>,
    pos: int,
    removed: bool,
    trials: int,
    p: spec_fn(Seq<u8>) -> bool,
    budget: Budget,
)
    requires
        0 <= pos <= bytes.len(),
        trials <= budget.max_trials,
        !removed ==> forall|i: int| 0 <= i < pos ==> !p(#[trigger] bytes.remove(i)),
    ensures
        scanned(bytes, pos, removed, trials, p, budget).1 <= budget.max_trials,
        ({
            let (r, spent) = scanned(bytes, pos, removed, trials, p, budget);
            spent < budget.max_trials && r.len() > budget.min_bytes ==> forall|i: int|
                0 <= i < r.len() ==> !p(#[trigger] r.remove(i))
        }),
    decreases
            budget.max_trials - trials,
            if removed {
                1int
            } else {
                0
            },
{
    if trials < budget.max_trials && bytes.len() > budget.min_bytes {
        if pos < bytes.len() {
            if p(bytes.remove(pos)) {
                scanned_is_minimal(bytes.remove(pos), pos, true, trials + 1, p, budget);
            } else {
                scanned_is_minimal(bytes, pos + 1, removed, trials + 1, p, budget);
            }
        } else if removed {
            scanned_is_minimal(bytes, 0, false, trials, p, budget);
        }
    }
}

/// The chunk phase stays within the budget.
pub proof fn chunked_spends(
    bytes: Seq<u8>,
    granularity: int,
    trials: int,
    p: spec_fn(Seq<u8>) -> bool,
    budget: Budget,
    len: nat,
)
    requires
        2 <= granularity,
        bytes.len() <= len,
        trials <= budget.max_trials,
    ensures
        ({
            let (r, spent) = chunked(bytes, granularity, trials, p, budget);
            let finer = if granularity <= len {
                len - granularity + 1
            } else {
                0
            };
            &&& r.len() <= bytes.len()
            &&& trials <= spent <= budget.max_trials
            &&& spent <= trials + len * (bytes.len() + finer)
        }),
    decreases budget.max_trials - trials,
{
    let finer = if granularity <= len {
        len - granularity + 1
    } else {
        0
    };
    assert(0 <= len * (bytes.len() + finer)) by (nonlinear_arith)
        requires
            0 <= finer,
    ;
    if 2 <= granularity <= bytes.len() && trials < budget.max_trials {
        let pass = first_reduction(bytes, granularity, 0, trials, p, budget);
        first_reduction_spends(bytes, granularity, 0, trials, p, budget);
        first_reduction_costs(bytes, granularity, 0, trials, p, budget);
        first_reduction_fails(bytes, granularity, 0, trials, p, budget);
        match pass.0 {
            Some(smaller) => {
                chunked_spends(smaller, granularity, pass.1, p, budget, len);
                let a = bytes.len() + finer;
                let b = smaller.len() + finer;
                assert(len * b + len <= len * a) by (nonlinear_arith)
                    requires
                        b + 1 <= a,
                ;
            },
            None => {
                chunked_spends(bytes, granularity * 2, pass.1, p, budget, len);
                let rest = if granularity * 2 <= len {
                    len - granularity * 2 + 1
                } else {
                    0
                };
                let a = bytes.len() + finer;
                let b = bytes.len() + rest;
                assert(len * b + len <= len * a) by (nonlinear_arith)
                    requires
                        b + 1 <= a,
                ;
            },
        }
    }
}

proof fn first_reduction_costs(
    bytes: Seq<u8>,
    granularity: int,
    i: int,
    trials: int,
    p: spec_fn(Seq<u8>) -> bool,
    budget: Budget,
)
    requires
        0 <= i <= granularity,
    ensures
        first_reduction(bytes, granularity, i, trials, p, budget).1 <= trials + granularity - i,
    decreases granularity - i,
{
    if i < granularity {
        first_reduction_costs(bytes, granularity, i + 1, trials + 1, p, budget);
    }
}

proof fn scanned_spends(
    bytes: Seq<u8>,
    pos: int,
    removed: bool,
    trials: int,
    p: spec_fn(Seq<u8>) -> bool,
    budget: Budget,
    len: nat,
)
    requires
        0 <= pos <= bytes.len() <= len,
    ensures
        scanned(bytes, pos, removed, trials, p, budget).1 <= trials + (bytes.len() - pos) + (
        if removed {
            len
        } else {
            0
        }) + bytes.len() * (len + 1),
    decreases
            budget.max_trials - trials,
            if removed {
                1int
            } else {
                0
            },
{
    let n = bytes.len() as int;
    assert(0 <= n * (len + 1) && n * (len + 1) == (n - 1) * (len + 1) + (len + 1))
        by (nonlinear_arith)
        requires
            0 <= n,
    ;
    if trials < budget.max_trials && bytes.len() > budget.min_bytes {
        if pos < bytes.len() {
            if p(bytes.remove(pos)) {
                scanned_spends(bytes.remove(pos), pos, true, trials + 1, p, budget, len);
            } else {
                scanned_spends(bytes, pos + 1, removed, trials + 1, p, budget, len);
            }
        } else if removed {
            scanned_spends(bytes, 0, false, trials, p, budget, len);
        }
    }
}

/// 1-minimality: as long as the budget is not used up, no single byte can be
/// left out of the result, unless the minimum length forbids it.
pub proof fn minimised_is_one_minimal(input: Seq<u8>, p: spec_fn(Seq<u8>) -> bool, budget: Budget)
    ensures
        minimisation(input, p, budget).1 <= budget.max_trials,
        minimisation(input, p, budget).1 < budget.max_trials && minimised(input, p, budget).len()
            > budget.min_bytes ==> forall|i: int|
            0 <= i < minimised(input, p, budget).len() ==> !p(
                #[trigger] minimised(input, p, budget).remove(i),
            ),
{
    let coarse = chunked(input, 2, 0, p, budget);
    chunked_spends(input, 2, 0, p, budget, input.len());
    scanned_is_minimal(coarse.0, 0, false, coarse.1, p, budget);
}

/// A budget of more than `3n² + n` trials is not used up on an input of length
/// `n`.
pub proof fn budget_suffices(input: Seq<u8>, p: spec_fn(Seq<u8>) -> bool, budget: Budget)
    requires
        budget.max_trials > 3 * (input.len() * input.len()) + input.len(),
    ensures
        minimisation(input, p, budget).1 < budget.max_trials,
{
    let len = input.len();
    let coarse = chunked(input, 2, 0, p, budget);
    chunked_spends(input, 2, 0, p, budget, len);
    scanned_spends(coarse.0, 0, false, coarse.1, p, budget, len);
    let finer = if 2 <= len {
        len - 1
    } else {
        0
    };
    let n = coarse.0.len();
    assert(len * (len + finer) <= 2 * (len * len) && (finer > 0 ==> len * (len + finer) == 2 * (len
        * len) - len)) by (nonlinear_arith)
        requires
            finer == (if 2 <= len {
                len - 1
            } else {
                0
            }),
    ;
    assert(n * (len + 1) <= len * len + len) by (nonlinear_arith)
        requires
            n <= len,
    ;
    if len < 2 {
        assert(coarse.1 == 0);
    }
}

}
