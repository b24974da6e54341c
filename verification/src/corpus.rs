//! The corpus: the inputs that found new coverage.
//!
//! Small and fast inputs with many new edges have a high score, and an input is
//! selected for mutation with a chance in proportion to its score.
use crate::crash_triage::{copy_label, label_view};
use crate::rng::{drawn_u64, picked, FuzzRng, RngState};
use crate::text::{append_bytes, as_chars, digits, padded, padded_decimal};
use vstd::arithmetic::div_mod::*;
use vstd::arithmetic::mul::*;
use vstd::arithmetic::power2::*;
use vstd::prelude::*;
use vstd::slice::*;
use vstd::string::*;

verus! {

/// Nanoseconds in a millisecond.
pub const NANOS_PER_MILLI: u64 = 1_000_000;

/// The score unit: scores are counted in parts of this size.
pub const SCORE_UNIT: u128 = 0x1_0000_0000_0000_0000;

/// The number of equally likely draws for a fraction between zero and one.
pub const FRACTION_DRAWS: u64 = 0x20_0000_0000_0000;

/// A number as far as it can be held: the highest one that can, for a larger one.
pub open spec fn held(n: nat) -> nat {
    if n > u128::MAX {
        u128::MAX as nat
    } else {
        n
    }
}

/// The score of an input: the square of its new edges, by its length times its
/// execution time in milliseconds plus one; in score units, as far as they can be
/// held.
pub open spec fn score_of(len: nat, exec_ns: nat, edges: nat) -> nat {
    held(edges * edges * SCORE_UNIT as nat / (len * (exec_ns / NANOS_PER_MILLI as nat) + 1))
}

proof fn scaled_beyond(n: int, d: int)
    requires
        0 < d,
        n / d >= SCORE_UNIT,
        0 <= n,
    ensures
        n * SCORE_UNIT / d > u128::MAX,
{
    let unit = SCORE_UNIT as int;
    lemma_fundamental_div_mod(n, d);
    assert(n >= d * unit) by (nonlinear_arith)
        requires
            n == d * (n / d) + n % d,
            n % d >= 0,
            n / d >= unit,
            d > 0,
    ;
    assert(n * unit >= (unit * unit) * d) by (nonlinear_arith)
        requires
            n >= d * unit,
            unit >= 0,
    ;
    lemma_div_is_ordered((unit * unit) * d, n * unit, d);
    lemma_div_by_multiple(unit * unit, d);
    assert(unit * unit > u128::MAX) by (nonlinear_arith)
        requires
            unit == 0x1_0000_0000_0000_0000,
    ;
}

proof fn doubled(n: int, d: int, q: int, r: int, scale: int)
    requires
        q * d + r == n * scale,
        0 <= r < d,
    ensures
        2 * r >= d ==> (2 * q + 1) * d + (2 * r - d) == n * (2 * scale),
        2 * r < d ==> (2 * q) * d + 2 * r == n * (2 * scale),
{
    assert((2 * q + 1) * d + (2 * r - d) == 2 * (q * d + r)) by (nonlinear_arith);
    assert((2 * q) * d + 2 * r == 2 * (q * d + r)) by (nonlinear_arith);
    assert(2 * (n * scale) == n * (2 * scale)) by (nonlinear_arith);
}

/// A quotient in score units, as far as they can be held: a division with 64
/// binary digits after the point.
fn scaled_quotient(n: u128, d: u128) -> (score: u128)
    requires
        0 < d < 0x8000_0000_0000_0000_0000_0000_0000_0000,
    ensures
        score == held((n * SCORE_UNIT / d as int) as nat),
{
    let mut q: u128 = n / d;
    let mut r: u128 = n % d;
    if q >= SCORE_UNIT {
        proof {
            scaled_beyond(n as int, d as int);
        }
        return u128::MAX;
    }
    let mut k: u32 = 0;
    proof {
        lemma_fundamental_div_mod(n as int, d as int);
        lemma_mul_is_commutative(d as int, q as int);
        lemma2_to64();
    }
    while k < 64
        invariant
            0 < d < 0x8000_0000_0000_0000_0000_0000_0000_0000,
            k <= 64,
            r < d,
            q * d + r == n * pow2(k as nat),
            q < SCORE_UNIT * pow2(k as nat),
            pow2(64) == SCORE_UNIT,
        decreases 64 - k,
    {
        proof {
            doubled(n as int, d as int, q as int, r as int, pow2(k as nat) as int);
            lemma_pow2_unfold((k + 1) as nat);
            if k + 1 < 64 {
                lemma_pow2_strictly_increases((k + 1) as nat, 64);
            }
            let small = pow2(k as nat) as int;
            assert(2 * small == pow2((k + 1) as nat));
            assert(SCORE_UNIT * small + SCORE_UNIT * small <= SCORE_UNIT * SCORE_UNIT)
                by (nonlinear_arith)
                requires
                    2 * small <= SCORE_UNIT,
            ;
            assert(SCORE_UNIT * small + SCORE_UNIT * small == SCORE_UNIT * (2 * small))
                by (nonlinear_arith);
            assert(SCORE_UNIT * SCORE_UNIT == 0x1_0000_0000_0000_0000_0000_0000_0000_0000)
                by (nonlinear_arith)
                requires
                    SCORE_UNIT == 0x1_0000_0000_0000_0000,
            ;
        }
        if 2 * r >= d {
            q = 2 * q + 1;
            r = 2 * r - d;
        } else {
            q = 2 * q;
            r = 2 * r;
        }
        k = k + 1;
    }
    proof {
        lemma_fundamental_div_mod_converse(n * SCORE_UNIT, d as int, q as int, r as int);
    }
    q
}

/// An input that found new coverage.
#[derive(Debug)]
pub struct CorpusEntry {
    /// The input.
    pub bytes: Vec<u8>,
    /// What its execution took, in nanoseconds.
    pub execution_time_ns: u64,
    /// Number of edges it found.
    pub new_edges_discovered: usize,
    /// Its score, in score units.
    pub performance_score: u128,
    /// Human-readable label, such as a function name.
    pub label: Option<String>,
    /// Number within the corpus.
    pub id: usize,
    /// What produced it: a seed, or a mutation operator.
    pub origin: String,
}

impl CorpusEntry {
    /// The two entries hold the same.
    pub open spec fn same(self, other: CorpusEntry) -> bool {
        &&& self.bytes@ == other.bytes@
        &&& self.execution_time_ns == other.execution_time_ns
        &&& self.new_edges_discovered == other.new_edges_discovered
        &&& self.performance_score == other.performance_score
        &&& label_view(self.label) == label_view(other.label)
        &&& self.id == other.id
        &&& self.origin@ == other.origin@
    }

    /// The entry holds what it was made from, with the score that follows.
    pub open spec fn made_from(
        self,
        bytes: Seq<u8>,
        execution_time_ns: u64,
        new_edges: nat,
        label: Option<Seq<char>>,
        origin: Seq<char>,
        id: nat,
    ) -> bool {
        &&& self.bytes@ == bytes
        &&& self.execution_time_ns == execution_time_ns
        &&& self.new_edges_discovered == new_edges
        &&& self.performance_score == score_of(bytes.len(), execution_time_ns as nat, new_edges)
        &&& label_view(self.label) == label
        &&& self.origin@ == origin
        &&& self.id == id
    }

    /// An entry with its score.
    pub fn new(
        bytes: Vec<u8>,
        execution_time_ns: u64,
        new_edges_discovered: usize,
        label: Option<String>,
        origin: &str,
        id: usize,
    ) -> (entry: Self)
        ensures
            entry.made_from(
                bytes@,
                execution_time_ns,
                new_edges_discovered as nat,
                label_view(label),
                origin@,
                id as nat,
            ),
    {
        let score: u128 = Self::compute_score(bytes.len(), execution_time_ns, new_edges_discovered);
        CorpusEntry {
            bytes,
            execution_time_ns,
            new_edges_discovered,
            performance_score: score,
            label,
            id,
            origin: String::from_str(origin),
        }
    }

    /// The score of an input.
    pub fn compute_score(len: usize, execution_time_ns: u64, new_edges: usize) -> (score: u128)
        ensures
            score == score_of(len as nat, execution_time_ns as nat, new_edges as nat),
    {
        let edges: u128 = new_edges as u128;
        let millis: u128 = (execution_time_ns / NANOS_PER_MILLI) as u128;
        let size: u128 = len as u128;
        proof {
            assert(edges * edges <= 0xffff_ffff_ffff_ffff * 0xffff_ffff_ffff_ffff)
                by (nonlinear_arith)
                requires
                    0 <= edges <= 0xffff_ffff_ffff_ffff,
            ;
            assert(millis <= 0xffff_ffff_ffff);
            assert(size * millis <= 0xffff_ffff_ffff_ffff * 0xffff_ffff_ffff) by (nonlinear_arith)
                requires
                    0 <= size <= 0xffff_ffff_ffff_ffff,
                    0 <= millis <= 0xffff_ffff_ffff,
            ;
            assert(0 <= size * millis) by (nonlinear_arith)
                requires
                    0 <= size,
                    0 <= millis,
            ;
        }
        scaled_quotient(edges * edges, size * millis + 1)
    }
}

impl Clone for CorpusEntry {
    fn clone(&self) -> (copy: Self)
        ensures
            copy.same(*self),
    {
        CorpusEntry {
            bytes: slice_to_vec(self.bytes.as_slice()),
            execution_time_ns: self.execution_time_ns,
            new_edges_discovered: self.new_edges_discovered,
            performance_score: self.performance_score,
            label: copy_label(&self.label),
            id: self.id,
            origin: self.origin.clone(),
        }
    }
}

/// The score is the square of the new edges, by the length times the milliseconds
/// plus one, in units of 2^-64 and rounded down, as far as it can be held.
pub proof fn score_is_the_quotient(len: nat, exec_ns: nat, edges: nat)
    ensures
        ({
            let score = score_of(len, exec_ns, edges);
            let cost = len * (exec_ns / 1_000_000) + 1;
            let worth = edges * edges * 0x1_0000_0000_0000_0000;
            &&& score <= u128::MAX
            &&& score * cost <= worth
            &&& score < u128::MAX ==> worth < (score + 1) * cost
        }),
{
    let cost = (len * (exec_ns / 1_000_000) + 1) as int;
    let worth = (edges * edges * SCORE_UNIT as nat) as int;
    let score = score_of(len, exec_ns, edges) as int;
    assert(cost > 0) by {
        lemma_mul_nonnegative(len as int, (exec_ns / 1_000_000) as int);
    }
    assert(worth >= 0) by (nonlinear_arith)
        requires
            worth == edges * edges * SCORE_UNIT as nat,
    ;
    let whole = worth / cost;
    lemma_fundamental_div_mod(worth, cost);
    lemma_mod_bound(worth, cost);
    assert(score <= whole);
    assert(score * cost <= worth) by (nonlinear_arith)
        requires
            score <= whole,
            worth == cost * whole + worth % cost,
            0 <= worth % cost,
            cost > 0,
    ;
    if score < u128::MAX {
        assert(worth < (score + 1) * cost) by (nonlinear_arith)
            requires
                score == whole,
                worth == cost * whole + worth % cost,
                worth % cost < cost,
        ;
    }
}

/// A larger input has no higher score.
pub proof fn score_prefers_small(small: nat, large: nat, exec_ns: nat, edges: nat)
    requires
        small <= large,
    ensures
        score_of(large, exec_ns, edges) <= score_of(small, exec_ns, edges),
{
    let ms = exec_ns / NANOS_PER_MILLI as nat;
    lemma_mul_inequality(small as int, large as int, ms as int);
    lemma_mul_nonnegative(small as int, ms as int);
    score_falls(edges, (small * ms + 1) as int, (large * ms + 1) as int);
}

/// A slower input has no higher score.
pub proof fn score_prefers_fast(len: nat, fast_ns: nat, slow_ns: nat, edges: nat)
    requires
        fast_ns <= slow_ns,
    ensures
        score_of(len, slow_ns, edges) <= score_of(len, fast_ns, edges),
{
    let fast = fast_ns / NANOS_PER_MILLI as nat;
    let slow = slow_ns / NANOS_PER_MILLI as nat;
    lemma_div_is_ordered(fast_ns as int, slow_ns as int, NANOS_PER_MILLI as int);
    lemma_mul_inequality(fast as int, slow as int, len as int);
    lemma_mul_is_commutative(len as int, fast as int);
    lemma_mul_is_commutative(len as int, slow as int);
    lemma_mul_nonnegative(len as int, fast as int);
    score_falls(edges, (len * fast + 1) as int, (len * slow + 1) as int);
}

proof fn score_falls(e: nat, low: int, high: int)
    requires
        0 < low <= high,
    ensures
        e * e * SCORE_UNIT as nat / (high as nat) <= e * e * SCORE_UNIT as nat / (low as nat),
{
    let n = e * e * SCORE_UNIT as nat;
    assert(0 <= n) by (nonlinear_arith)
        requires
            n == e * e * SCORE_UNIT as nat,
            e >= 0,
            SCORE_UNIT as nat >= 0,
    ;
    lemma_div_is_ordered_by_denominator(n as int, low, high);
}

/// An input with more new edges has no lower score.
pub proof fn score_prefers_new_edges(len: nat, exec_ns: nat, few: nat, many: nat)
    requires
        few <= many,
    ensures
        score_of(len, exec_ns, few) <= score_of(len, exec_ns, many),
{
    let d = len * (exec_ns / NANOS_PER_MILLI as nat) + 1;
    let a = few;
    let b = many;
    assert(0 < d) by {
        lemma_mul_nonnegative(len as int, (exec_ns / NANOS_PER_MILLI as nat) as int);
    }
    let u = SCORE_UNIT as nat;
    assert(a * a * u <= b * b * u) by (nonlinear_arith)
        requires
            a <= b,
            u >= 0,
    ;
    lemma_div_is_ordered((a * a * u) as int, (b * b * u) as int, d as int);
}

/// The sum of the scores of some entries.
pub open spec fn score_sum(entries: Seq<CorpusEntry>) -> nat
    decreases entries.len(),
{
    if entries.len() == 0 {
        0
    } else {
        score_sum(entries.drop_last()) + entries.last().performance_score as nat
    }
}

/// The sum of the lengths of some entries.
pub open spec fn size_sum(entries: Seq<CorpusEntry>) -> nat
    decreases entries.len(),
{
    if entries.len() == 0 {
        0
    } else {
        size_sum(entries.drop_last()) + entries.last().bytes@.len()
    }
}

/// The sum of the execution times of some entries, in whole milliseconds each.
pub open spec fn millis_sum(entries: Seq<CorpusEntry>) -> nat
    decreases entries.len(),
{
    if entries.len() == 0 {
        0
    } else {
        millis_sum(entries.drop_last()) + (entries.last().execution_time_ns / NANOS_PER_MILLI) as nat
    }
}

/// The highest score of some entries.
pub open spec fn score_max(entries: Seq<CorpusEntry>) -> nat
    decreases entries.len(),
{
    if entries.len() == 0 {
        0
    } else {
        let before = score_max(entries.drop_last());
        let last = entries.last().performance_score as nat;
        if last > before {
            last
        } else {
            before
        }
    }
}

/// The entry at or after `from` with which the sum of the scores reaches the
/// share `draw` of the total weight; the last one if none does.
pub open spec fn reaching(entries: Seq<CorpusEntry>, from: int, draw: int, total: int) -> int
    decreases entries.len() - from,
{
    if from >= entries.len() - 1 {
        entries.len() - 1
    } else if score_sum(entries.take(from + 1)) * FRACTION_DRAWS >= draw * total {
        from
    } else {
        reaching(entries, from + 1, draw, total)
    }
}

/// The highest score is that of some entry, and none is above it.
pub proof fn highest_score_is_reached(entries: Seq<CorpusEntry>)
    ensures
        forall|i: int|
            0 <= i < entries.len() ==> (#[trigger] entries[i]).performance_score <= score_max(
                entries,
            ),
        entries.len() > 0 ==> exists|i: int|
            0 <= i < entries.len() && (#[trigger] entries[i]).performance_score == score_max(
                entries,
            ),
        entries.len() == 0 ==> score_max(entries) == 0,
    decreases entries.len(),
{
    if entries.len() > 0 {
        let less = entries.drop_last();
        highest_score_is_reached(less);
        assert forall|i: int| 0 <= i < entries.len() implies (
        #[trigger] entries[i]).performance_score <= score_max(entries) by {
            if i < less.len() {
                assert(entries[i] == less[i]);
            }
        }
        if entries.last().performance_score as nat > score_max(less) || less.len() == 0 {
            assert(entries[entries.len() - 1] == entries.last());
        } else {
            let i = choose|i: int|
                0 <= i < less.len() && (#[trigger] less[i]).performance_score == score_max(less);
            assert(entries[i] == less[i]);
        }
    }
}

/// The sums over a corpus grow by what an entry adds: its score, its length and its
/// milliseconds.
pub proof fn sums_grow_by_the_entry(entries: Seq<CorpusEntry>, entry: CorpusEntry)
    ensures
        score_sum(entries.push(entry)) == score_sum(entries) + entry.performance_score,
        size_sum(entries.push(entry)) == size_sum(entries) + entry.bytes@.len(),
        millis_sum(entries.push(entry)) == millis_sum(entries) + entry.execution_time_ns as nat
            / 1_000_000,
        score_sum(Seq::<CorpusEntry>::empty()) == 0,
        size_sum(Seq::<CorpusEntry>::empty()) == 0,
        millis_sum(Seq::<CorpusEntry>::empty()) == 0,
{
    assert(entries.push(entry).drop_last() =~= entries);
}

/// Which entry is selected by weight, and the state after the draw. If no entry
/// has any weight, each has the same chance.
pub open spec fn weighted_choice(entries: Seq<CorpusEntry>, s: RngState) -> (int, RngState) {
    let total = held(score_sum(entries));
    if total == 0 {
        picked(s, entries.len() as int)
    } else {
        let d = drawn_u64(s);
        (reaching(entries, 0, d.0 as int / 2048, total as int), d.1)
    }
}

proof fn score_sum_grows(entries: Seq<CorpusEntry>, few: int, many: int)
    requires
        0 <= few <= many <= entries.len(),
    ensures
        score_sum(entries.take(few)) <= score_sum(entries.take(many)),
    decreases many - few,
{
    if few < many {
        score_sum_grows(entries, few, many - 1);
        assert(entries.take(many).drop_last() =~= entries.take(many - 1));
    }
}

proof fn reaching_from(entries: Seq<CorpusEntry>, from: int, i: int, draw: int, total: int)
    requires
        0 <= from <= i < entries.len(),
        from == i || score_sum(entries.take(i)) * FRACTION_DRAWS < draw * total,
    ensures
        (reaching(entries, from, draw, total) == i) <==> (i == entries.len() - 1 || score_sum(
            entries.take(i + 1),
        ) * FRACTION_DRAWS >= draw * total),
    decreases i - from,
{
    if from < i {
        score_sum_grows(entries, from + 1, i);
        assert(score_sum(entries.take(from + 1)) * FRACTION_DRAWS <= score_sum(entries.take(i))
            * FRACTION_DRAWS) by (nonlinear_arith)
            requires
                score_sum(entries.take(from + 1)) <= score_sum(entries.take(i)),
                FRACTION_DRAWS >= 0,
        ;
        reaching_from(entries, from + 1, i, draw, total);
    } else if i < entries.len() - 1 && !(score_sum(entries.take(i + 1)) * FRACTION_DRAWS >= draw
        * total) {
        reaching_moves_on(entries, i + 1, draw, total);
    }
}

proof fn reaching_moves_on(entries: Seq<CorpusEntry>, from: int, draw: int, total: int)
    requires
        0 <= from < entries.len(),
    ensures
        reaching(entries, from, draw, total) >= from,
    decreases entries.len() - from,
{
    if from < entries.len() - 1 {
        reaching_moves_on(entries, from + 1, draw, total);
    }
}

proof fn reaching_before(entries: Seq<CorpusEntry>, from: int, i: int, draw: int, total: int)
    requires
        0 <= from < i < entries.len(),
        score_sum(entries.take(i)) * FRACTION_DRAWS >= draw * total,
    ensures
        reaching(entries, from, draw, total) < i,
    decreases i - from,
{
    if from + 1 < i {
        reaching_before(entries, from + 1, i, draw, total);
    }
}

/// Selection is in proportion to the scores: an entry is selected by the draws
/// whose share of the total weight lies within its own part of the sum of
/// scores, behind those of the entries before it. The first one also gets the
/// draw of zero, and the last one what is left.
pub proof fn selection_is_by_score(entries: Seq<CorpusEntry>, i: int, draw: int, total: int)
    requires
        0 <= i < entries.len(),
    ensures
        (reaching(entries, 0, draw, total) == i) <==> {
            &&& i == 0 || score_sum(entries.take(i)) * FRACTION_DRAWS < draw * total
            &&& i == entries.len() - 1 || draw * total <= (score_sum(entries.take(i))
                + entries[i].performance_score) * FRACTION_DRAWS
        },
{
    assert(entries.take(i + 1).drop_last() =~= entries.take(i));
    if i == 0 || score_sum(entries.take(i)) * FRACTION_DRAWS < draw * total {
        reaching_from(entries, 0, i, draw, total);
    } else {
        reaching_before(entries, 0, i, draw, total);
    }
}

/// Entries with the same scores.
pub open spec fn same_scores(a: Seq<CorpusEntry>, b: Seq<CorpusEntry>) -> bool {
    &&& a.len() == b.len()
    &&& forall|i: int|
        0 <= i < a.len() ==> (#[trigger] a[i]).performance_score == b[i].performance_score
}

proof fn score_sum_depends(a: Seq<CorpusEntry>, b: Seq<CorpusEntry>)
    requires
        same_scores(a, b),
    ensures
        score_sum(a) == score_sum(b),
    decreases a.len(),
{
    if a.len() > 0 {
        assert(a[a.len() - 1].performance_score == b[a.len() - 1].performance_score);
        assert forall|i: int| 0 <= i < a.len() - 1 implies (
        #[trigger] a.drop_last()[i]).performance_score == b.drop_last()[i].performance_score by {
            assert(a.drop_last()[i] == a[i]);
        }
        score_sum_depends(a.drop_last(), b.drop_last());
    }
}

proof fn reaching_depends(
    a: Seq<CorpusEntry>,
    b: Seq<CorpusEntry>,
    from: int,
    draw: int,
    total: int,
)
    requires
        same_scores(a, b),
        0 <= from,
    ensures
        reaching(a, from, draw, total) == reaching(b, from, draw, total),
    decreases a.len() - from,
{
    if from < a.len() - 1 {
        assert forall|i: int| 0 <= i < from + 1 implies (
        #[trigger] a.take(from + 1)[i]).performance_score == b.take(from
            + 1)[i].performance_score by {
            assert(a.take(from + 1)[i] == a[i]);
        }
        score_sum_depends(a.take(from + 1), b.take(from + 1));
        reaching_depends(a, b, from + 1, draw, total);
    }
}

/// Which entry is selected by weight depends on the scores and the random source
/// alone.
pub proof fn choice_depends_on_scores(a: Seq<CorpusEntry>, b: Seq<CorpusEntry>, s: RngState)
    requires
        same_scores(a, b),
    ensures
        weighted_choice(a, s) == weighted_choice(b, s),
{
    score_sum_depends(a, b);
    reaching_depends(
        a,
        b,
        0,
        drawn_u64(s).0 as int / 2048,
        held(score_sum(a)) as int,
    );
}

/// The share of a total that a draw stands for, rounded up.
fn share(draw: u64, total: u128) -> (threshold: u128)
    requires
        draw < FRACTION_DRAWS,
    ensures
        threshold <= total,
        forall|sum: int| (#[trigger] (sum * FRACTION_DRAWS) >= draw * total) <==> sum >= threshold,
{
    let unit: u128 = FRACTION_DRAWS as u128;
    let high: u128 = total / unit;
    let low: u128 = total % unit;
    let k: u128 = draw as u128;
    proof {
        assert(total == high * unit + low) by {
            lemma_fundamental_div_mod(total as int, unit as int);
            lemma_mul_is_commutative(unit as int, high as int);
        }
        assert(k * high <= high * unit && 0 <= k * high) by (nonlinear_arith)
            requires
                0 <= k <= unit,
                0 <= high,
        ;
        assert(k * low <= unit * unit && 0 <= k * low) by (nonlinear_arith)
            requires
                0 <= k <= unit,
                0 <= low <= unit,
        ;
        assert(k * low <= unit * low) by (nonlinear_arith)
            requires
                0 <= k <= unit,
                0 <= low,
        ;
        assert(unit * unit == 0x20_0000_0000_0000 * 0x20_0000_0000_0000);
    }
    let part: u128 = k * low;
    let rest: u128 = (part + (unit - 1)) / unit;
    proof {
        lemma_fundamental_div_mod(part + (unit - 1), unit as int);
        let q = rest as int;
        let u = unit as int;
        let r = (part + (u - 1)) % u;
        assert(0 <= r < u) by {
            lemma_mod_bound(part + (u - 1), u);
        }
        assert(u * q + r == part + (u - 1));
        assert(q <= low) by (nonlinear_arith)
            requires
                u * q + r == part + (u - 1),
                0 <= r < u,
                part <= u * low,
                u > 0,
                low >= 0,
        ;
        let whole = k * high;
        let all = k * total;
        assert(all == whole * u + part) by (nonlinear_arith)
            requires
                all == k * total,
                total == high * u + low,
                whole == k * high,
                part == k * low,
        ;
        assert forall|sum: int| (#[trigger] (sum * FRACTION_DRAWS) >= draw * total) <==> sum
            >= whole + q by {
            assert(sum * u >= whole * u + part <==> sum >= whole + q) by (nonlinear_arith)
                requires
                    u * q + r == part + (u - 1),
                    0 <= r < u,
                    u > 0,
            ;
        }
        assert(whole + q <= total) by (nonlinear_arith)
            requires
                whole <= high * u,
                q <= low,
                total == high * u + low,
        ;
    }
    k * high + rest
}

/// The figures of a corpus.
#[derive(Debug, Clone, Copy, PartialEq, Eq)]
pub struct CorpusStats {
    /// Number of entries.
    pub size: usize,
    /// Average length of an entry.
    pub avg_input_bytes: usize,
    /// Average execution time of an entry, in milliseconds.
    pub avg_exec_ms: u64,
    /// Sum of all scores.
    pub total_weight: u128,
    /// Highest score.
    pub max_performance_score: u128,
}

impl CorpusStats {
    /// The figures of some entries.
    pub open spec fn describes(self, entries: Seq<CorpusEntry>) -> bool {
        &&& self.size == entries.len()
        &&& self.total_weight == held(score_sum(entries))
        &&& self.max_performance_score == score_max(entries)
        &&& entries.len() == 0 ==> self.avg_input_bytes == 0 && self.avg_exec_ms == 0
        &&& entries.len() > 0 ==> self.avg_input_bytes == size_sum(entries) / entries.len()
            && self.avg_exec_ms == millis_sum(entries) / entries.len()
    }
}

impl Default for CorpusStats {
    fn default() -> (stats: Self)
        ensures
            stats.size == 0,
            stats.avg_input_bytes == 0,
            stats.avg_exec_ms == 0,
            stats.total_weight == 0,
            stats.max_performance_score == 0,
            stats.describes(Seq::empty()),
    {
        CorpusStats {
            size: 0,
            avg_input_bytes: 0,
            avg_exec_ms: 0,
            total_weight: 0,
            max_performance_score: 0,
        }
    }
}

/// The name of the file that holds an entry.
pub open spec fn file_name_of(id: nat) -> Seq<char> {
    "entry_"@ + as_chars(padded(digits(id), 6)) + ".bin"@
}

/// The name of the file that holds an entry.
pub fn entry_file_name(id: usize) -> (name: String)
    ensures
        name@ == file_name_of(id as nat),
{
    let mut name: String = String::from_str("entry_");
    let numeral: Vec<u8> = padded_decimal(id as u128, 6);
    append_bytes(&mut name, numeral.as_slice());
    name.append(".bin");
    name
}

/// The corpus: entries in the order in which they were added.
#[derive(Debug)]
pub struct Corpus {
    entries: Vec<CorpusEntry>,
    total_weight: u128,
    /// Where entries are kept between sessions, if anywhere.
    pub corpus_dir: Option<String>,
}

impl View for Corpus {
    type V = Seq<CorpusEntry>;

    closed spec fn view(&self) -> Seq<CorpusEntry> {
        self.entries@
    }
}

impl Corpus {
    /// The total weight is the sum of the scores.
    pub closed spec fn wf(self) -> bool {
        self.total_weight == held(score_sum(self@))
    }

    /// The directory for its entries.
    pub closed spec fn dir(self) -> Option<String> {
        self.corpus_dir
    }

    /// An empty corpus.
    pub fn new() -> (corpus: Self)
        ensures
            corpus.wf(),
            corpus@ == Seq::<CorpusEntry>::empty(),
            corpus.dir() is None,
    {
        Corpus { entries: Vec::new(), total_weight: 0, corpus_dir: None }
    }

    /// An empty corpus whose entries are kept in a directory.
    pub fn with_dir(dir: String) -> (corpus: Self)
        ensures
            corpus.wf(),
            corpus@ == Seq::<CorpusEntry>::empty(),
            corpus.dir() == Some(dir),
    {
        Corpus { entries: Vec::new(), total_weight: 0, corpus_dir: Some(dir) }
    }

    /// Adds an entry behind the others.
    pub fn add(&mut self, entry: CorpusEntry)
        requires
            old(self).wf(),
        ensures
            final(self).wf(),
            final(self)@ == old(self)@.push(entry),
            final(self).dir() == old(self).dir(),
    {
        self.total_weight = self.total_weight.saturating_add(entry.performance_score);
        self.entries.push(entry);
        assert(self@.drop_last() =~= old(self)@);
    }

    /// Adds a seed: an entry with one edge and a millisecond of execution time.
    pub fn add_seed(&mut self, bytes: Vec<u8>, label: Option<String>)
        requires
            old(self).wf(),
        ensures
            final(self).wf(),
            final(self).dir() == old(self).dir(),
            final(self)@.len() == old(self)@.len() + 1,
            final(self)@.drop_last() == old(self)@,
            final(self)@.last().made_from(
                bytes@,
                NANOS_PER_MILLI,
                1,
                label_view(label),
                "seed"@,
                old(self)@.len(),
            ),
    {
        let id: usize = self.entries.len();
        let entry: CorpusEntry = CorpusEntry::new(bytes, NANOS_PER_MILLI, 1, label, "seed", id);
        self.add(entry);
        assert(self@.drop_last() =~= old(self)@);
    }

    /// Number of entries.
    pub fn len(&self) -> (len: usize)
        ensures
            len == self@.len(),
    {
        self.entries.len()
    }

    /// Whether there are no entries.
    pub fn is_empty(&self) -> (empty: bool)
        ensures
            empty == (self@.len() == 0),
    {
        self.entries.len() == 0
    }

    /// Selects an entry with a chance in proportion to its score.
    pub fn select_weighted(&self, rng: &mut FuzzRng) -> (entry: Option<&CorpusEntry>)
        requires
            self.wf(),
        ensures
            match entry {
                None => self@.len() == 0 && final(rng)@ == old(rng)@,
                Some(e) => {
                    let d = weighted_choice(self@, old(rng)@);
                    &&& self@.len() > 0
                    &&& 0 <= d.0 < self@.len()
                    &&& *e == self@[d.0]
                    &&& final(rng)@ == d.1
                },
            },
    {
        if self.entries.len() == 0 {
            return None;
        }
        if self.total_weight == 0 {
            let choice: usize = rng.below(self.entries.len());
            return Some(&self.entries[choice]);
        }
        let draw: u64 = rng.any_u64() / 2048;
        let threshold: u128 = share(draw, self.total_weight);
        let ghost total = self.total_weight as int;
        let mut sum: u128 = 0;
        let mut i: usize = 0;
        let last: usize = self.entries.len() - 1;
        while i < last
            invariant_except_break
                sum == held(score_sum(self@.take(i as int))),
            invariant
                self.wf(),
                total == self.total_weight,
                i <= last,
                last == self@.len() - 1,
                threshold <= self.total_weight,
                forall|sum: int|
                    (#[trigger] (sum * FRACTION_DRAWS) >= draw * total) <==> sum >= threshold,
                reaching(self@, 0, draw as int, total) == reaching(
                    self@,
                    i as int,
                    draw as int,
                    total,
                ),
            ensures
                i <= last,
                reaching(self@, 0, draw as int, total) == i,
            decreases last - i,
        {
            assert(self@.take(i + 1).drop_last() =~= self@.take(i as int));
            sum = sum.saturating_add(self.entries[i].performance_score);
            let ghost reached = score_sum(self@.take(i + 1)) as int;
            assert((reached * FRACTION_DRAWS >= draw * total) <==> reached >= threshold);
            if sum >= threshold {
                break;
            }
            i = i + 1;
        }
        Some(&self.entries[i])
    }

    /// Selects an entry, each with the same chance.
    pub fn select_random(&self, rng: &mut FuzzRng) -> (entry: Option<&CorpusEntry>)
        ensures
            match entry {
                None => self@.len() == 0 && final(rng)@ == old(rng)@,
                Some(e) => {
                    let d = picked(old(rng)@, self@.len() as int);
                    &&& self@.len() > 0
                    &&& 0 <= d.0 < self@.len()
                    &&& *e == self@[d.0]
                    &&& final(rng)@ == d.1
                },
            },
    {
        if self.entries.len() == 0 {
            return None;
        }
        let choice: usize = rng.below(self.entries.len());
        Some(&self.entries[choice])
    }

    /// All entries, in order.
    pub fn entries(&self) -> (entries: &[CorpusEntry])
        ensures
            entries@ == self@,
    {
        self.entries.as_slice()
    }

    /// The figures of the corpus.
    pub fn stats(&self) -> (stats: CorpusStats)
        requires
            self.wf(),
        ensures
            stats.describes(self@),
    {
        if self.entries.len() == 0 {
            assert(self@ =~= Seq::empty());
            return CorpusStats::default();
        }
        let count: usize = self.entries.len();
        let mut size: u128 = 0;
        let mut millis: u128 = 0;
        let mut max: u128 = 0;
        let mut i: usize = 0;
        while i < count
            invariant
                i <= count,
                count == self@.len(),
                size == size_sum(self@.take(i as int)),
                millis == millis_sum(self@.take(i as int)),
                max == score_max(self@.take(i as int)),
                size <= i * usize::MAX,
                millis <= i * u64::MAX,
            decreases count - i,
        {
            assert(self@.take(i + 1).drop_last() =~= self@.take(i as int));
            let len: usize = self.entries[i].bytes.len();
            proof {
                assert(i * usize::MAX + usize::MAX == (i + 1) * usize::MAX) by (nonlinear_arith);
                assert((i + 1) * usize::MAX <= 0xffff_ffff_ffff_ffff * 0xffff_ffff_ffff_ffff)
                    by (nonlinear_arith)
                    requires
                        i + 1 <= 0xffff_ffff_ffff_ffff,
                        usize::MAX <= 0xffff_ffff_ffff_ffff,
                ;
                assert(i * u64::MAX + u64::MAX == (i + 1) * u64::MAX) by (nonlinear_arith);
                assert((i + 1) * u64::MAX <= 0xffff_ffff_ffff_ffff * 0xffff_ffff_ffff_ffff)
                    by (nonlinear_arith)
                    requires
                        i + 1 <= 0xffff_ffff_ffff_ffff,
                        u64::MAX <= 0xffff_ffff_ffff_ffff,
                ;
            }
            size = size + len as u128;
            millis = millis + (self.entries[i].execution_time_ns / NANOS_PER_MILLI) as u128;
            if self.entries[i].performance_score > max {
                max = self.entries[i].performance_score;
            }
            i = i + 1;
        }
        proof {
            assert(self@.take(i as int) =~= self@);
            assert(size / count as u128 <= usize::MAX) by (nonlinear_arith)
                requires
                    size <= count * usize::MAX,
                    count > 0,
            ;
            assert(millis / count as u128 <= u64::MAX) by (nonlinear_arith)
                requires
                    millis <= count * u64::MAX,
                    count > 0,
            ;
        }
        CorpusStats {
            size: count,
            avg_input_bytes: (size / count as u128) as usize,
            avg_exec_ms: (millis / count as u128) as u64,
            total_weight: self.total_weight,
            max_performance_score: max,
        }
    }

    /// The number that the next entry gets.
    pub fn next_id(&self) -> (id: usize)
        ensures
            id == self@.len(),
    {
        self.entries.len()
    }
}

impl Default for Corpus {
    fn default() -> (corpus: Self)
        ensures
            corpus.wf(),
            corpus@ == Seq::<CorpusEntry>::empty(),
            corpus.dir() is None,
    {
        Self::new()
    }
}

}
