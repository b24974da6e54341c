//! What draws bring about: which operator, which link, which base and which donor a
//! draw stands for, and that each of them can come up.
use crate::corpus::{score_sum, selection_is_by_score, CorpusEntry};
use crate::input_gen::{generated, InputGenConfig};
use crate::mutation::{
    all_strategies, chain_links, chained, drawn_strategy, link_applied, mutated, tallied,
    tally_sum, tally_sum_update, wrecked, MutationStrategy, MutatorConfig, MutatorModel,
    STRATEGY_COUNT,
};
use crate::orchestrator::{next_draw, DrawModel};
use crate::rng::{chanced, drawn_u64, drawn_u8, ranged_u64, RngState};
use crate::values::{json_of, SorobanValueType};
use vstd::arithmetic::div_mod::*;
use vstd::prelude::*;

verus! {

/// Every operator can be drawn: there is a number below fifteen for each, and no two
/// share one, for which the draw below fifteen brings it up.
pub proof fn every_operator_can_be_drawn(operator: MutationStrategy) -> (k: u64)
    ensures
        k < 15,
        forall|s: RngState|
            (#[trigger] ranged_u64(s, 0, 14)).0 < 15 ==> {
                (drawn_strategy(s).0 == operator) <==> ranged_u64(s, 0, 14).0 == k
            },
        forall|s: RngState| #[trigger]
            drawn_strategy(s).1 == ranged_u64(s, 0, 14).1,
{
    let k = operator.place() as u64;
    assert forall|s: RngState| (#[trigger] ranged_u64(s, 0, 14)).0 < 15 implies {
        (drawn_strategy(s).0 == operator) <==> ranged_u64(s, 0, 14).0 == k
    } by {
        let n = ranged_u64(s, 0, 14).0 as int;
        assert(all_strategies()[n].place() == n);
        assert(all_strategies()[k as int] == operator);
    }
    k
}

/// Every operator but the chain can be a link: there is a number below fourteen for
/// each, and no two share one, for which the draw below fourteen makes it the next
/// link. The link is applied and counted, and the chain goes on from there.
pub proof fn every_operator_can_be_a_link(
    operator: MutationStrategy,
    donor: Option<Seq<u8>>,
    config: MutatorConfig,
) -> (k: u64)
    requires
        !(operator is Havoc),
    ensures
        k < 14,
        forall|bytes: Seq<u8>, rounds: int, m: MutatorModel|
            bytes.len() > 0 && rounds > 0 && ranged_u64(m.rng, 0, 13).0 == k ==> {
                let link = link_applied(operator, bytes, donor, config, ranged_u64(m.rng, 0, 13).1);
                #[trigger] chained(bytes, donor, config, rounds, m) == chained(
                    link.0,
                    donor,
                    config,
                    rounds - 1,
                    MutatorModel { rng: link.1, tally: tallied(m.tally, operator) },
                )
            },
{
    let place = operator.place();
    let k = if place < 13 {
        place
    } else {
        place - 1
    };
    assert(chain_links()[k] == operator) by {
        assert(all_strategies()[place] == operator);
    }
    k as u64
}

/// A number below fourteen stands for one operator only.
pub proof fn links_are_told_apart(one: MutationStrategy, other: MutationStrategy)
    requires
        !(one is Havoc),
        !(other is Havoc),
        one != other,
    ensures
        exists|j: u64, k: u64|
            j < 14 && k < 14 && j != k && #[trigger] chain_links()[j as int] == one
                && #[trigger] chain_links()[k as int] == other,
{
    let p = one.place();
    let q = other.place();
    let j = if p < 13 {
        p
    } else {
        p - 1
    };
    let k = if q < 13 {
        q
    } else {
        q - 1
    };
    assert(all_strategies()[p] == one && all_strategies()[q] == other);
    assert(p != q);
    assert(chain_links()[(j as u64) as int] == one);
    assert(chain_links()[(k as u64) as int] == other);
}

proof fn tally_bounded(tally: Seq<u64>, place: int, room: nat)
    requires
        0 <= place < tally.len(),
        tally_sum(tally) + room + 1 <= u64::MAX,
    ensures
        tally[place] < u64::MAX,
        tally_sum(tally.update(place, (tally[place] + 1) as u64)) == tally_sum(tally) + 1,
{
    tally_sum_update(tally, place, tally[place]);
    tally_sum_update(tally, place, (tally[place] + 1) as u64);
}

proof fn links_counted(
    bytes: Seq<u8>,
    donor: Option<Seq<u8>>,
    config: MutatorConfig,
    rounds: nat,
    m: MutatorModel,
)
    requires
        m.tally.len() == STRATEGY_COUNT,
        tally_sum(m.tally) + rounds <= u64::MAX,
        forall|s: RngState| (#[trigger] ranged_u64(s, 0, 13)).0 < 14,
        always_something(donor, config),
    ensures
        ({
            let after = chained(bytes, donor, config, rounds as int, m).1;
            &&& after.tally.len() == STRATEGY_COUNT
            &&& tally_sum(after.tally) == tally_sum(m.tally) + rounds - (if bytes.len() == 0
                && rounds > 0 {
                1int
            } else {
                0
            })
        }),
    decreases rounds,
{
    if rounds > 0 {
        let less = (rounds - 1) as nat;
        if bytes.len() == 0 {
            let d = drawn_u8(m.rng);
            links_counted(
                bytes.push(d.0),
                donor,
                config,
                less,
                MutatorModel { rng: d.1, tally: m.tally },
            );
        } else {
            let d = ranged_u64(m.rng, 0, 13);
            let strategy = chain_links()[d.0 as int];
            let e = link_applied(strategy, bytes, donor, config, d.1);
            tally_bounded(m.tally, strategy.place(), less);
            links_counted(
                e.0,
                donor,
                config,
                less,
                MutatorModel { rng: e.1, tally: tallied(m.tally, strategy) },
            );
        }
    }
}

/// No link leaves nothing of an input.
pub open spec fn always_something(donor: Option<Seq<u8>>, config: MutatorConfig) -> bool {
    forall|strategy: MutationStrategy, bytes: Seq<u8>, s: RngState|
        bytes.len() > 0 ==> (#[trigger] link_applied(strategy, bytes, donor, config, s)).0.len() > 0
}

/// A chain has as many links as were drawn between two and the most that the
/// settings allow; an empty input is given a byte in place of one.
pub proof fn chain_has_the_length_drawn(
    bytes: Seq<u8>,
    donor: Option<Seq<u8>>,
    config: MutatorConfig,
    m: MutatorModel,
)
    requires
        m.tally.len() == STRATEGY_COUNT,
        tally_sum(m.tally) + ranged_u64(m.rng, 2, config.havoc_max_rounds as u64).0 <= u64::MAX,
        ranged_u64(m.rng, 2, config.havoc_max_rounds as u64).0 >= 2,
        forall|s: RngState| (#[trigger] ranged_u64(s, 0, 13)).0 < 14,
        always_something(donor, config),
    ensures
        tally_sum(wrecked(bytes, donor, config, m).1.tally) == tally_sum(m.tally) + ranged_u64(
            m.rng,
            2,
            config.havoc_max_rounds as u64,
        ).0 - (if bytes.len() == 0 {
            1int
        } else {
            0
        }),
{
    let d = ranged_u64(m.rng, 2, config.havoc_max_rounds as u64);
    links_counted(bytes, donor, config, d.0 as nat, MutatorModel { rng: d.1, tally: m.tally });
}

/// An operator is applied and counted once; the chain is counted and followed for as
/// many rounds as were drawn between two and the most that the settings allow.
pub proof fn operators_are_applied_and_counted(
    strategy: MutationStrategy,
    base: Seq<u8>,
    donor: Option<Seq<u8>>,
    config: MutatorConfig,
    m: MutatorModel,
)
    requires
        m.tally.len() == 15,
        m.tally[strategy.place()] < u64::MAX,
    ensures
        !(strategy is Havoc) ==> {
            let out = mutated(strategy, base, donor, config, m);
            let link = link_applied(strategy, base, donor, config, m.rng);
            out.0 == link.0 && out.1.rng == link.1
        },
        !(strategy is Havoc) ==> forall|i: int|
            0 <= i < 15 ==> #[trigger] mutated(strategy, base, donor, config, m).1.tally[i]
                == m.tally[i] + (if all_strategies()[i] == strategy {
                1int
            } else {
                0
            }),
        strategy is Havoc ==> {
            let rounds = ranged_u64(m.rng, 2, config.havoc_max_rounds as u64);
            mutated(strategy, base, donor, config, m) == chained(
                base,
                donor,
                config,
                rounds.0 as int,
                MutatorModel {
                    rng: rounds.1,
                    tally: m.tally.update(13, (m.tally[13] + 1) as u64),
                },
            )
        },
{
}

/// A draw of 53 bits selects an entry of the corpus: its share of the sum of all
/// scores lies within the part of the entry, behind the parts of the entries before
/// it. The first entry also has the draw of zero, and the last one what is left.
pub open spec fn selects(entries: Seq<CorpusEntry>, draw: int, i: int) -> bool {
    let total = score_sum(entries) as int;
    let before = score_sum(entries.take(i)) as int;
    &&& 0 <= i < entries.len()
    &&& i == 0 || before * 0x20_0000_0000_0000 < draw * total
    &&& i == entries.len() - 1 || draw * total <= (before + entries[i].performance_score)
        * 0x20_0000_0000_0000
}

/// The next input is made from the entry that the draw selects by its score, unless
/// a value is generated, which is so with a chance of one in five. It is spliced
/// with any entry, and the operator is any of the fifteen; both are drawn.
pub proof fn next_input_comes_from_the_selected_entry(
    entries: Seq<CorpusEntry>,
    values: InputGenConfig,
    mutations: MutatorConfig,
    d: DrawModel,
    i: int,
)
    requires
        !chanced(d.session, 1, 5).0,
        0 < score_sum(entries) <= u128::MAX,
        selects(entries, drawn_u64(chanced(d.session, 1, 5).1).0 as int / 2048, i),
    ensures
        ({
            let after = drawn_u64(chanced(d.session, 1, 5).1).1;
            let donor = ranged_u64(after, 0, (entries.len() - 1) as u64);
            let operator = ranged_u64(d.mutator.rng, 0, 14);
            let strategy = all_strategies()[operator.0 as int];
            let result = mutated(
                strategy,
                entries[i].bytes@,
                Some(entries[donor.0 as int].bytes@),
                mutations,
                MutatorModel { rng: operator.1, tally: d.mutator.tally },
            );
            next_draw(entries, values, mutations, d) == (
                result.0,
                strategy,
                DrawModel { session: donor.1, generator: d.generator, mutator: result.1 },
            )
        }),
{
    reveal(next_draw);
    let draw = drawn_u64(chanced(d.session, 1, 5).1).0 as int / 2048;
    selection_is_by_score(entries, i, draw, score_sum(entries) as int);
}

/// The next input is made from a generated integer with a chance of one in five, and
/// always where the corpus is empty.
pub proof fn next_input_comes_from_a_generated_integer(
    entries: Seq<CorpusEntry>,
    values: InputGenConfig,
    mutations: MutatorConfig,
    d: DrawModel,
)
    requires
        entries.len() == 0 || chanced(d.session, 1, 5).0,
    ensures
        ({
            let value = generated(SorobanValueType::I128, values, d.generator);
            let after = chanced(d.session, 1, 5).1;
            let place = ranged_u64(after, 0, (entries.len() - 1) as u64);
            let donor = if entries.len() == 0 {
                None
            } else {
                Some(entries[place.0 as int].bytes@)
            };
            let operator = ranged_u64(d.mutator.rng, 0, 14);
            let strategy = all_strategies()[operator.0 as int];
            let result = mutated(
                strategy,
                json_of(value.0),
                donor,
                mutations,
                MutatorModel { rng: operator.1, tally: d.mutator.tally },
            );
            next_draw(entries, values, mutations, d) == (
                result.0,
                strategy,
                DrawModel {
                    session: if entries.len() == 0 {
                        d.session
                    } else {
                        place.1
                    },
                    generator: value.1,
                    mutator: result.1,
                },
            )
        }),
{
    reveal(next_draw);
}

/// One entry at most is selected by a draw.
pub proof fn one_entry_is_selected(entries: Seq<CorpusEntry>, draw: int, i: int, j: int)
    requires
        selects(entries, draw, i),
        selects(entries, draw, j),
    ensures
        i == j,
{
    selection_is_by_score(entries, i, draw, score_sum(entries) as int);
    selection_is_by_score(entries, j, draw, score_sum(entries) as int);
}

/// Every entry whose score makes up one draw or more is selected by some draw, and
/// the draws that select an entry between others are as many as its score makes up
/// of the total, rounded down or up.
pub proof fn draws_are_in_proportion_to_scores(entries: Seq<CorpusEntry>, i: int) -> (r: (int, int))
    requires
        0 < i < entries.len() - 1,
        score_sum(entries) > 0,
    ensures
        forall|draw: int| #[trigger] selects(entries, draw, i) <==> r.0 < draw <= r.1,
        0 <= r.0 <= r.1 <= 0x20_0000_0000_0000,
        (r.1 - r.0 - 1) * score_sum(entries) < entries[i].performance_score * 0x20_0000_0000_0000,
        (r.1 - r.0 + 1) * score_sum(entries) > entries[i].performance_score * 0x20_0000_0000_0000,
        entries[i].performance_score * 0x20_0000_0000_0000 >= score_sum(entries) ==> r.0 < r.1,
{
    let unit: int = 0x20_0000_0000_0000;
    let total = score_sum(entries) as int;
    let before = score_sum(entries.take(i)) as int;
    let part = entries[i].performance_score as int;
    assert(entries.take(i + 1).drop_last() =~= entries.take(i));
    prefix_sums_grow(entries, i + 1);
    let low = before * unit / total;
    let high = (before + part) * unit / total;
    let a = before * unit;
    let b = (before + part) * unit;
    lemma_fundamental_div_mod(a, total);
    lemma_fundamental_div_mod(b, total);
    lemma_mod_bound(a, total);
    lemma_mod_bound(b, total);
    assert forall|draw: int| #[trigger] selects(entries, draw, i) <==> low < draw <= high by {
        assert((a < draw * total) <==> low < draw) by (nonlinear_arith)
            requires
                a == total * low + a % total,
                0 <= a % total < total,
        ;
        assert((draw * total <= b) <==> draw <= high) by (nonlinear_arith)
            requires
                b == total * high + b % total,
                0 <= b % total < total,
        ;
    }
    assert(b == a + part * unit) by (nonlinear_arith)
        requires
            a == before * unit,
            b == (before + part) * unit,
    ;
    assert(0 <= low <= high <= unit) by (nonlinear_arith)
        requires
            0 <= before,
            0 <= part,
            before + part <= total,
            unit > 0,
            total > 0,
            a == before * unit,
            b == (before + part) * unit,
            a == total * low + a % total,
            0 <= a % total < total,
            b == total * high + b % total,
            0 <= b % total < total,
    ;
    let p = part * unit;
    assert((high - low - 1) * total < p && (high - low + 1) * total > p) by (nonlinear_arith)
        requires
            b == a + p,
            a == total * low + a % total,
            0 <= a % total < total,
            b == total * high + b % total,
            0 <= b % total < total,
    ;
    if p >= total {
        assert(low < high) by (nonlinear_arith)
            requires
                p >= total,
                total > 0,
                (high - low + 1) * total > p,
        ;
    }
    (low, high)
}

proof fn prefix_sums_grow(entries: Seq<CorpusEntry>, n: int)
    requires
        0 <= n <= entries.len(),
    ensures
        score_sum(entries.take(n)) <= score_sum(entries),
    decreases entries.len() - n,
{
    if n < entries.len() {
        prefix_sums_grow(entries, n + 1);
        assert(entries.take(n + 1).drop_last() =~= entries.take(n));
    } else {
        assert(entries.take(n) =~= entries);
    }
}

}
