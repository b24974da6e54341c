//! Mutation operators and their scheduler.
//!
//! Each operator is a function of its input and of the state of the random
//! source, so a session with a seed can be replayed. The operators flip bits,
//! overwrite bytes, add small numbers, write dangerous integers, splice two
//! inputs, swap the arguments of two inputs, or chain all of these.
use crate::json::{array_items, array_text, json_array_items, texts, write_array};
use crate::ratio::FRACTION_UNIT;
use crate::rng::{between, drawn_u8, picked, ranged_u8, seeded, FuzzRng, RngState};
use crate::text::same_text;
use vstd::bytes::{spec_u64_to_le_bytes, u64_to_le_bytes};
use vstd::prelude::*;
use vstd::slice::*;
use vstd::string::*;

verus! {

/// A mutation operator.
#[derive(Debug, Clone, Copy, PartialEq, Eq, Hash, Structural)]
pub enum MutationStrategy {
    /// Flips one bit.
    BitFlip1,
    /// Flips two consecutive bits.
    BitFlip2,
    /// Flips four consecutive bits.
    BitFlip4,
    /// Flips eight consecutive bits.
    BitFlip8,
    /// Flips sixteen consecutive bits.
    BitFlip16,
    /// Flips thirty-two consecutive bits.
    BitFlip32,
    /// Inverts bytes.
    ByteFlip,
    /// Sets bytes to zero.
    ByteZero,
    /// Sets bytes to 255.
    ByteMax,
    /// Adds a small number to a byte.
    ArithmeticAdd,
    /// Subtracts a small number from a byte.
    ArithmeticSub,
    /// Writes a dangerous integer.
    InterestingValue,
    /// Joins a prefix of the input and a suffix of another one.
    Splice,
    /// Applies a random chain of the other operators.
    Havoc,
    /// Swaps an argument of the input for one of another input.
    StructSplice,
}

/// Number of mutation operators.
pub const STRATEGY_COUNT: usize = 15;

/// All operators, in their order.
pub open spec fn all_strategies() -> Seq<MutationStrategy> {
    seq![
        MutationStrategy::BitFlip1,
        MutationStrategy::BitFlip2,
        MutationStrategy::BitFlip4,
        MutationStrategy::BitFlip8,
        MutationStrategy::BitFlip16,
        MutationStrategy::BitFlip32,
        MutationStrategy::ByteFlip,
        MutationStrategy::ByteZero,
        MutationStrategy::ByteMax,
        MutationStrategy::ArithmeticAdd,
        MutationStrategy::ArithmeticSub,
        MutationStrategy::InterestingValue,
        MutationStrategy::Splice,
        MutationStrategy::Havoc,
        MutationStrategy::StructSplice,
    ]
}

/// The operators that a chain is made of: all but the chain itself.
pub open spec fn chain_links() -> Seq<MutationStrategy> {
    all_strategies().remove(13)
}

impl MutationStrategy {
    /// The operator's place among all operators.
    pub open spec fn place(self) -> int {
        match self {
            MutationStrategy::BitFlip1 => 0,
            MutationStrategy::BitFlip2 => 1,
            MutationStrategy::BitFlip4 => 2,
            MutationStrategy::BitFlip8 => 3,
            MutationStrategy::BitFlip16 => 4,
            MutationStrategy::BitFlip32 => 5,
            MutationStrategy::ByteFlip => 6,
            MutationStrategy::ByteZero => 7,
            MutationStrategy::ByteMax => 8,
            MutationStrategy::ArithmeticAdd => 9,
            MutationStrategy::ArithmeticSub => 10,
            MutationStrategy::InterestingValue => 11,
            MutationStrategy::Splice => 12,
            MutationStrategy::Havoc => 13,
            MutationStrategy::StructSplice => 14,
        }
    }

    /// The operator's name.
    pub open spec fn title(self) -> Seq<char> {
        match self {
            MutationStrategy::BitFlip1 => "bit_flip_1"@,
            MutationStrategy::BitFlip2 => "bit_flip_2"@,
            MutationStrategy::BitFlip4 => "bit_flip_4"@,
            MutationStrategy::BitFlip8 => "bit_flip_8"@,
            MutationStrategy::BitFlip16 => "bit_flip_16"@,
            MutationStrategy::BitFlip32 => "bit_flip_32"@,
            MutationStrategy::ByteFlip => "byte_flip"@,
            MutationStrategy::ByteZero => "byte_zero"@,
            MutationStrategy::ByteMax => "byte_max"@,
            MutationStrategy::ArithmeticAdd => "arith_add"@,
            MutationStrategy::ArithmeticSub => "arith_sub"@,
            MutationStrategy::InterestingValue => "interesting_val"@,
            MutationStrategy::Splice => "splice"@,
            MutationStrategy::Havoc => "havoc"@,
            MutationStrategy::StructSplice => "struct_splice"@,
        }
    }

    /// All operators, in their order.
    pub fn all() -> (list: &'static [MutationStrategy])
        ensures
            list@ == all_strategies(),
    {
        let list: &'static [MutationStrategy] = &[
            MutationStrategy::BitFlip1,
            MutationStrategy::BitFlip2,
            MutationStrategy::BitFlip4,
            MutationStrategy::BitFlip8,
            MutationStrategy::BitFlip16,
            MutationStrategy::BitFlip32,
            MutationStrategy::ByteFlip,
            MutationStrategy::ByteZero,
            MutationStrategy::ByteMax,
            MutationStrategy::ArithmeticAdd,
            MutationStrategy::ArithmeticSub,
            MutationStrategy::InterestingValue,
            MutationStrategy::Splice,
            MutationStrategy::Havoc,
            MutationStrategy::StructSplice,
        ];
        assert(list@ =~= all_strategies());
        list
    }

    /// The operator's name.
    pub fn name(&self) -> (text: &'static str)
        ensures
            text@ == self.title(),
    {
        match self {
            MutationStrategy::BitFlip1 => "bit_flip_1",
            MutationStrategy::BitFlip2 => "bit_flip_2",
            MutationStrategy::BitFlip4 => "bit_flip_4",
            MutationStrategy::BitFlip8 => "bit_flip_8",
            MutationStrategy::BitFlip16 => "bit_flip_16",
            MutationStrategy::BitFlip32 => "bit_flip_32",
            MutationStrategy::ByteFlip => "byte_flip",
            MutationStrategy::ByteZero => "byte_zero",
            MutationStrategy::ByteMax => "byte_max",
            MutationStrategy::ArithmeticAdd => "arith_add",
            MutationStrategy::ArithmeticSub => "arith_sub",
            MutationStrategy::InterestingValue => "interesting_val",
            MutationStrategy::Splice => "splice",
            MutationStrategy::Havoc => "havoc",
            MutationStrategy::StructSplice => "struct_splice",
        }
    }

    /// The operator's place among all operators.
    pub fn index(&self) -> (place: usize)
        ensures
            place == self.place(),
            place < STRATEGY_COUNT,
    {
        match self {
            MutationStrategy::BitFlip1 => 0,
            MutationStrategy::BitFlip2 => 1,
            MutationStrategy::BitFlip4 => 2,
            MutationStrategy::BitFlip8 => 3,
            MutationStrategy::BitFlip16 => 4,
            MutationStrategy::BitFlip32 => 5,
            MutationStrategy::ByteFlip => 6,
            MutationStrategy::ByteZero => 7,
            MutationStrategy::ByteMax => 8,
            MutationStrategy::ArithmeticAdd => 9,
            MutationStrategy::ArithmeticSub => 10,
            MutationStrategy::InterestingValue => 11,
            MutationStrategy::Splice => 12,
            MutationStrategy::Havoc => 13,
            MutationStrategy::StructSplice => 14,
        }
    }
}

/// The list of all operators holds each of them once, at its place.
pub proof fn each_strategy_once(s: MutationStrategy)
    ensures
        all_strategies().len() == STRATEGY_COUNT,
        0 <= s.place() < STRATEGY_COUNT,
        all_strategies()[s.place()] == s,
        forall|i: int| 0 <= i < STRATEGY_COUNT ==> (#[trigger] all_strategies()[i]).place() == i,
{
}

/// No two operators share a name.
pub proof fn names_are_distinct(a: MutationStrategy, b: MutationStrategy)
    ensures
        a.title() == b.title() ==> a == b,
{
    reveal_strlit("bit_flip_1");
    reveal_strlit("bit_flip_2");
    reveal_strlit("bit_flip_4");
    reveal_strlit("bit_flip_8");
    reveal_strlit("bit_flip_16");
    reveal_strlit("bit_flip_32");
    reveal_strlit("byte_flip");
    reveal_strlit("byte_zero");
    reveal_strlit("byte_max");
    reveal_strlit("arith_add");
    reveal_strlit("arith_sub");
    reveal_strlit("interesting_val");
    reveal_strlit("splice");
    reveal_strlit("havoc");
    reveal_strlit("struct_splice");
    assert(a.title()[a.title().len() - 1] == a.title().last());
    assert(a.title()[0] == b.title()[0] || a.title() != b.title());
    assert(a.title()[5] == b.title()[5] || a.title() != b.title());
    assert(a.title()[6] == b.title()[6] || a.title() != b.title());
    assert(a.title()[9] == b.title()[9] || a.title() != b.title());
}

/// Settings of the mutation scheduler.
#[derive(Debug, Clone, Copy, PartialEq, Eq)]
pub struct MutatorConfig {
    /// Maximum number of links in one chain.
    pub havoc_max_rounds: usize,
    /// Maximum length of a spliced suffix, as a share of the input that it is taken
    /// from, in parts of one by [`FRACTION_UNIT`].
    pub splice_max_fraction: u64,
    /// Minimum length of the inputs to a splice.
    pub splice_min_bytes: usize,
    /// Number of mutations to try per corpus entry before moving on.
    pub mutations_per_entry: usize,
}

impl Default for MutatorConfig {
    fn default() -> (config: Self)
        ensures
            config.havoc_max_rounds == 128,
            config.splice_max_fraction * 2 == FRACTION_UNIT,
            config.splice_min_bytes == 4,
            config.mutations_per_entry == 512,
    {
        MutatorConfig {
            havoc_max_rounds: 128,
            splice_max_fraction: FRACTION_UNIT / 2,
            splice_min_bytes: 4,
            mutations_per_entry: 512,
        }
    }
}

/// The sum of some counts.
pub open spec fn tally_sum(tally: Seq<u64>) -> nat
    decreases tally.len(),
{
    if tally.len() == 0 {
        0
    } else {
        tally_sum(tally.drop_last()) + tally.last() as nat
    }
}

/// The counts with one more at a place.
pub open spec fn tallied(tally: Seq<u64>, strategy: MutationStrategy) -> Seq<u64> {
    tally.update(strategy.place(), (tally[strategy.place()] + 1) as u64)
}

/// How a sum changes with one of its counts.
pub proof fn tally_sum_update(tally: Seq<u64>, place: int, count: u64)
    requires
        0 <= place < tally.len(),
    ensures
        tally_sum(tally.update(place, count)) + tally[place] == tally_sum(tally) + count,
        tally[place] <= tally_sum(tally),
    decreases tally.len(),
{
    let after = tally.update(place, count);
    if place == tally.len() - 1 {
        assert(after.drop_last() =~= tally.drop_last());
    } else {
        assert(after.drop_last() =~= tally.drop_last().update(place, count));
        tally_sum_update(tally.drop_last(), place, count);
    }
}

/// Counts of zero sum to zero.
pub proof fn tally_sum_zeros(tally: Seq<u64>)
    requires
        forall|i: int| 0 <= i < tally.len() ==> tally[i] == 0,
    ensures
        tally_sum(tally) == 0,
    decreases tally.len(),
{
    if tally.len() > 0 {
        tally_sum_zeros(tally.drop_last());
    }
}

/// How often each operator was applied.
#[derive(Debug, Clone)]
pub struct MutationStats {
    /// Number of operators applied.
    pub total_mutations: u64,
    /// The same per operator, by its place.
    pub per_strategy: Vec<u64>,
    /// Number of mutations that found new coverage.
    pub interesting_mutations: u64,
}

impl MutationStats {
    /// One count per operator, and they add up to the total.
    pub open spec fn wf(self) -> bool {
        &&& self.per_strategy@.len() == STRATEGY_COUNT
        &&& tally_sum(self.per_strategy@) == self.total_mutations
    }

    /// Counts an application of an operator.
    pub fn record(&mut self, strategy: MutationStrategy)
        requires
            old(self).wf(),
            old(self).total_mutations < u64::MAX,
        ensures
            final(self).wf(),
            final(self).total_mutations == old(self).total_mutations + 1,
            final(self).per_strategy@ == tallied(old(self).per_strategy@, strategy),
            final(self).per_strategy@[strategy.place()] == old(self).per_strategy@[strategy.place()]
                + 1,
            final(self).interesting_mutations == old(self).interesting_mutations,
    {
        let place: usize = strategy.index();
        proof {
            let count = self.per_strategy@[place as int];
            tally_sum_update(self.per_strategy@, place as int, count);
            tally_sum_update(self.per_strategy@, place as int, (count + 1) as u64);
        }
        let count: u64 = self.per_strategy[place];
        self.per_strategy.set(place, count + 1);
        self.total_mutations = self.total_mutations + 1;
    }

    /// How often the operator with a name was applied: nothing for one that was
    /// never applied, and for a name that no operator has.
    pub fn count(&self, name: &str) -> (count: Option<u64>)
        requires
            self.wf(),
        ensures
            match count {
                Some(n) => n > 0 && exists|s: MutationStrategy| #[trigger]
                    s.title() == name@ && self.per_strategy@[s.place()] == n,
                None => forall|s: MutationStrategy| #[trigger]
                    s.title() == name@ ==> self.per_strategy@[s.place()] == 0,
            },
    {
        let all: &'static [MutationStrategy] = MutationStrategy::all();
        let mut i: usize = 0;
        while i < all.len()
            invariant
                self.wf(),
                all@ == all_strategies(),
                i <= all@.len(),
                forall|k: int| 0 <= k < i ==> (#[trigger] all_strategies()[k]).title() != name@,
            decreases all@.len() - i,
        {
            let strategy: MutationStrategy = all[i];
            if same_text(strategy.name(), name) {
                let count: u64 = self.per_strategy[strategy.index()];
                assert(strategy.title() == name@);
                assert forall|s: MutationStrategy| #[trigger] s.title() == name@ implies s
                    == strategy by {
                    names_are_distinct(s, strategy);
                }
                return if count > 0 {
                    Some(count)
                } else {
                    None
                };
            }
            i = i + 1;
        }
        proof {
            assert forall|s: MutationStrategy| #[trigger] s.title() == name@ implies false by {
                each_strategy_once(s);
                assert(all_strategies()[s.place()].title() != name@);
            }
        }
        None
    }
}

impl Default for MutationStats {
    fn default() -> (stats: Self)
        ensures
            stats.wf(),
            stats.total_mutations == 0,
            stats.per_strategy@ == Seq::new(STRATEGY_COUNT as nat, |i: int| 0u64),
            stats.interesting_mutations == 0,
    {
        let stats: MutationStats = MutationStats {
            total_mutations: 0,
            per_strategy: vec![0u64; STRATEGY_COUNT],
            interesting_mutations: 0,
        };
        proof {
            tally_sum_zeros(stats.per_strategy@);
            assert(stats.per_strategy@ =~= Seq::new(STRATEGY_COUNT as nat, |i: int| 0u64));
        }
        stats
    }
}

/// The bytes with one bit flipped; bits are counted from the lowest one of the
/// first byte.
pub open spec fn toggled(bytes: Seq<u8>, bit: int) -> Seq<u8> {
    bytes.update(bit / 8, bytes[bit / 8] ^ (1u8 << ((bit % 8) as u8)))
}

/// Number of bits in so many bytes, as far as a machine word counts them.
pub open spec fn bit_count(len: int) -> int {
    if len > usize::MAX / 8 {
        usize::MAX as int
    } else {
        8 * len
    }
}

/// The bytes with `count` consecutive bits flipped from `start` on; after the
/// last bit comes the first.
pub open spec fn flipped(bytes: Seq<u8>, start: int, count: nat) -> Seq<u8>
    decreases count,
{
    if count == 0 {
        bytes
    } else {
        toggled(
            flipped(bytes, start, (count - 1) as nat),
            (start + count - 1) % bit_count(bytes.len() as int),
        )
    }
}

/// What flipping consecutive bits at a random place gives.
pub open spec fn bit_flipped(bytes: Seq<u8>, count: nat, s: RngState) -> (Seq<u8>, RngState) {
    if bytes.len() == 0 {
        (seq![0u8], s)
    } else {
        let d = picked(s, bit_count(bytes.len() as int));
        (flipped(bytes, d.0, count), d.1)
    }
}

/// Some consecutive bits were flipped; an empty input became a zero byte.
pub open spec fn flips_bits(bytes: Seq<u8>, count: nat, out: Seq<u8>) -> bool {
    if bytes.len() == 0 {
        out == seq![0u8]
    } else {
        exists|start: int|
            0 <= start < bit_count(bytes.len() as int) && out == #[trigger] flipped(
                bytes,
                start,
                count,
            )
    }
}

/// What becomes of a byte: inverted, zero or 255.
pub open spec fn overwritten(byte: u8, mode: u8) -> u8 {
    if mode == 0 {
        byte ^ 0xff
    } else if mode == 1 {
        0
    } else {
        0xff
    }
}

/// The bytes after `count` random ones of them were overwritten.
pub open spec fn bytes_overwritten(bytes: Seq<u8>, mode: u8, count: int, s: RngState) -> (
    Seq<u8>,
    RngState,
)
    decreases count,
{
    if count <= 0 {
        (bytes, s)
    } else {
        let d = picked(s, bytes.len() as int);
        bytes_overwritten(bytes.update(d.0, overwritten(bytes[d.0], mode)), mode, count - 1, d.1)
    }
}

/// The bytes after those at some places were overwritten, one after the other.
pub open spec fn overwritten_at(bytes: Seq<u8>, mode: u8, places: Seq<int>) -> Seq<u8>
    decreases places.len(),
{
    if places.len() == 0 {
        bytes
    } else {
        let before = overwritten_at(bytes, mode, places.drop_last());
        before.update(places.last(), overwritten(before[places.last()], mode))
    }
}

/// One to eight bytes were overwritten, and no more than there are; an empty
/// input became a zero byte.
pub open spec fn overwrites_bytes(bytes: Seq<u8>, mode: u8, out: Seq<u8>) -> bool {
    if bytes.len() == 0 {
        out == seq![0u8]
    } else {
        exists|places: Seq<int>|
            {
                &&& out == #[trigger] overwritten_at(bytes, mode, places)
                &&& 1 <= places.len() <= 8
                &&& places.len() <= bytes.len()
                &&& forall|i: int|
                    0 <= i < places.len() ==> 0 <= #[trigger] places[i] < bytes.len()
            }
    }
}

/// What overwriting one to eight random bytes gives.
pub open spec fn byte_mutated(bytes: Seq<u8>, mode: u8, s: RngState) -> (Seq<u8>, RngState) {
    if bytes.len() == 0 {
        (seq![0u8], s)
    } else {
        let d = between(s, 1, if bytes.len() < 8 {
            bytes.len() as int
        } else {
            8
        });
        bytes_overwritten(bytes, mode, d.0, d.1)
    }
}

/// A byte with a small number added or subtracted, modulo 256.
pub open spec fn shifted(byte: u8, delta: u8, add: bool) -> u8 {
    (if add {
        (byte + delta) % 256
    } else {
        (byte - delta) % 256
    }) as u8
}

/// What adding or subtracting a small number at a random place gives.
pub open spec fn nudged(bytes: Seq<u8>, add: bool, s: RngState) -> (Seq<u8>, RngState) {
    if bytes.len() == 0 {
        (seq![0u8], s)
    } else {
        let d = picked(s, bytes.len() as int);
        let e = ranged_u8(d.1, 1, 35);
        (bytes.update(d.0, shifted(bytes[d.0], e.0, add)), e.1)
    }
}

/// A number from one to thirty-five was added to or subtracted from a byte; an
/// empty input became a zero byte.
pub open spec fn nudges_byte(bytes: Seq<u8>, add: bool, out: Seq<u8>) -> bool {
    if bytes.len() == 0 {
        out == seq![0u8]
    } else {
        exists|place: int, delta: u8|
            0 <= place < bytes.len() && 1 <= delta <= 35 && out == bytes.update(
                place,
                #[trigger] shifted(bytes[place], delta, add),
            )
    }
}

/// Integers at which programs tend to go wrong.
pub open spec fn dangerous_integers() -> Seq<i64> {
    seq![
        0i64,
        1,
        (-1) as i64,
        0x7fff_ffff_ffff_ffff,
        (-0x8000_0000_0000_0000) as i64,
        0x7fff_ffff,
        (-0x8000_0000) as i64,
        0x7fff,
        (-0x8000) as i64,
        0xff,
        0x7f,
        0x80,
        0x100,
        0xffff,
        0x7fff,
        0x8000,
        0x1_0000,
        0xffff_ffff,
        0x7fff_ffff,
        (-0x8000_0000) as i64,
    ]
}

/// The bytes with others written over them from a place on.
pub open spec fn written_over(bytes: Seq<u8>, place: int, word: Seq<u8>) -> Seq<u8> {
    bytes.take(place) + word + bytes.skip(place + word.len())
}

/// What writing a dangerous integer, in little-endian order, at a random place
/// gives.
pub open spec fn endangered(bytes: Seq<u8>, s: RngState) -> (Seq<u8>, RngState) {
    if bytes.len() < 8 {
        nudged(bytes, true, s)
    } else {
        let d = picked(s, 20);
        let e = between(d.1, 0, bytes.len() - 8);
        (
            written_over(bytes, e.0, spec_u64_to_le_bytes(dangerous_integers()[d.0] as u64)),
            e.1,
        )
    }
}

/// A dangerous integer was written over eight bytes; a shorter input had a small
/// number added to a byte.
pub open spec fn plants_integer(bytes: Seq<u8>, out: Seq<u8>) -> bool {
    if bytes.len() < 8 {
        nudges_byte(bytes, true, out)
    } else {
        exists|place: int, i: int|
            0 <= place <= bytes.len() - 8 && 0 <= i < 20 && out == #[trigger] written_over(
                bytes,
                place,
                spec_u64_to_le_bytes(#[trigger] dangerous_integers()[i] as u64),
            )
    }
}

/// The longest suffix that may be taken from an input of length `len`.
pub open spec fn suffix_limit(len: int, config: MutatorConfig) -> int {
    let limit = len * config.splice_max_fraction as int / FRACTION_UNIT as int;
    if limit < len {
        limit
    } else {
        len
    }
}

/// Both inputs are long enough to be spliced.
pub open spec fn spliceable(base: Seq<u8>, donor: Seq<u8>, config: MutatorConfig) -> bool {
    &&& base.len() >= config.splice_min_bytes
    &&& donor.len() >= config.splice_min_bytes
    &&& base.len() >= 2
    &&& suffix_limit(donor.len() as int, config) >= 1
}

/// What joining a prefix of one input and a suffix of another gives.
pub open spec fn spliced(
    base: Seq<u8>,
    donor: Seq<u8>,
    config: MutatorConfig,
    s: RngState,
) -> (Seq<u8>, RngState) {
    if spliceable(base, donor, config) {
        let d = between(s, 1, base.len() - 1);
        let e = between(
            d.1,
            donor.len() - suffix_limit(donor.len() as int, config),
            donor.len() - 1,
        );
        (base.take(d.0) + donor.skip(e.0), e.1)
    } else {
        (base, s)
    }
}

/// A prefix of one input was joined with a suffix of another; inputs that are too
/// short for that left the first as it was.
pub open spec fn joins_inputs(
    base: Seq<u8>,
    donor: Seq<u8>,
    config: MutatorConfig,
    out: Seq<u8>,
) -> bool {
    if spliceable(base, donor, config) {
        exists|kept: int, from: int|
            0 < kept < base.len() && donor.len() - suffix_limit(donor.len() as int, config)
                <= from < donor.len() && out == #[trigger] base.take(kept)
                + #[trigger] donor.skip(from)
    } else {
        out == base
    }
}

/// An item of a list was swapped for one of another list.
pub open spec fn swaps_item(base: Seq<Seq<u8>>, donor: Seq<Seq<u8>>, out: Seq<u8>) -> bool {
    exists|i: int, j: int|
        0 <= i < base.len() && 0 <= j < donor.len() && out == array_text(
            #[trigger] base.update(i, donor[j]),
        )
}

/// An argument was swapped where both inputs are JSON arrays with items, and
/// otherwise the inputs were joined as bytes.
pub open spec fn swaps_argument(
    base: Seq<u8>,
    donor: Seq<u8>,
    config: MutatorConfig,
    out: Seq<u8>,
) -> bool {
    match (json_array_items(base), json_array_items(donor)) {
        (Some(b), Some(d)) => if b.len() > 0 && d.len() > 0 {
            swaps_item(b, d, out)
        } else {
            joins_inputs(base, donor, config, out)
        },
        _ => joins_inputs(base, donor, config, out),
    }
}

/// What an operator other than the chain does to an input, whatever is drawn.
pub open spec fn link_does(
    strategy: MutationStrategy,
    base: Seq<u8>,
    donor: Option<Seq<u8>>,
    config: MutatorConfig,
    out: Seq<u8>,
) -> bool {
    let other = match donor {
        Some(d) => d,
        None => base,
    };
    match strategy {
        MutationStrategy::BitFlip1 => flips_bits(base, 1, out),
        MutationStrategy::BitFlip2 => flips_bits(base, 2, out),
        MutationStrategy::BitFlip4 => flips_bits(base, 4, out),
        MutationStrategy::BitFlip8 => flips_bits(base, 8, out),
        MutationStrategy::BitFlip16 => flips_bits(base, 16, out),
        MutationStrategy::BitFlip32 => flips_bits(base, 32, out),
        MutationStrategy::ByteFlip => overwrites_bytes(base, 0, out),
        MutationStrategy::ByteZero => overwrites_bytes(base, 1, out),
        MutationStrategy::ByteMax => overwrites_bytes(base, 2, out),
        MutationStrategy::ArithmeticAdd => nudges_byte(base, true, out),
        MutationStrategy::ArithmeticSub => nudges_byte(base, false, out),
        MutationStrategy::InterestingValue => plants_integer(base, out),
        MutationStrategy::Splice => joins_inputs(base, other, config, out),
        MutationStrategy::Havoc => out == base,
        MutationStrategy::StructSplice => swaps_argument(base, other, config, out),
    }
}

/// The counts with one more for each link of a chain.
pub open spec fn all_tallied(tally: Seq<u64>, links: Seq<MutationStrategy>) -> Seq<u64>
    decreases links.len(),
{
    if links.len() == 0 {
        tally
    } else {
        tallied(all_tallied(tally, links.drop_last()), links.last())
    }
}

/// A chain of links has led from the first stage to the last, and each link is
/// an operator other than the chain.
pub open spec fn is_chain(
    stages: Seq<Seq<u8>>,
    links: Seq<MutationStrategy>,
    donor: Option<Seq<u8>>,
    config: MutatorConfig,
) -> bool {
    &&& stages.len() == links.len() + 1
    &&& forall|i: int|
        0 <= i < links.len() ==> {
            &&& !(#[trigger] links[i] is Havoc)
            &&& link_does(links[i], stages[i], donor, config, stages[i + 1])
        }
}

/// A chain of one link or more, as many as the settings allow, has changed an
/// input, after giving it a byte if it was empty; and each link was counted.
pub open spec fn chain_does(
    input: Seq<u8>,
    donor: Option<Seq<u8>>,
    config: MutatorConfig,
    out: Seq<u8>,
    before: Seq<u64>,
    after: Seq<u64>,
) -> bool {
    exists|stages: Seq<Seq<u8>>, links: Seq<MutationStrategy>|
        {
            &&& #[trigger] is_chain(stages, links, donor, config)
            &&& 1 <= links.len() <= config.havoc_max_rounds
            &&& if input.len() > 0 {
                stages[0] == input
            } else {
                stages[0].len() == 1
            }
            &&& stages.last() == out
            &&& after == all_tallied(before, links)
        }
}

/// What swapping a random item for a random item of another list gives.
pub open spec fn item_swapped(base: Seq<Seq<u8>>, donor: Seq<Seq<u8>>, s: RngState) -> (
    Seq<u8>,
    RngState,
) {
    let d = picked(s, base.len() as int);
    let e = picked(d.1, donor.len() as int);
    (array_text(base.update(d.0, donor[e.0])), e.1)
}

/// What swapping an argument gives: if both inputs are JSON arrays with items,
/// an item is swapped, otherwise the inputs are spliced as bytes.
pub open spec fn struct_spliced(
    base: Seq<u8>,
    donor: Seq<u8>,
    config: MutatorConfig,
    s: RngState,
) -> (Seq<u8>, RngState) {
    match (json_array_items(base), json_array_items(donor)) {
        (Some(b), Some(d)) => if b.len() > 0 && d.len() > 0 {
            item_swapped(b, d, s)
        } else {
            spliced(base, donor, config, s)
        },
        _ => spliced(base, donor, config, s),
    }
}

/// What an operator other than the chain gives. Without a donor the input is
/// its own.
pub open spec fn link_applied(
    strategy: MutationStrategy,
    base: Seq<u8>,
    donor: Option<Seq<u8>>,
    config: MutatorConfig,
    s: RngState,
) -> (Seq<u8>, RngState) {
    let other = match donor {
        Some(d) => d,
        None => base,
    };
    match strategy {
        MutationStrategy::BitFlip1 => bit_flipped(base, 1, s),
        MutationStrategy::BitFlip2 => bit_flipped(base, 2, s),
        MutationStrategy::BitFlip4 => bit_flipped(base, 4, s),
        MutationStrategy::BitFlip8 => bit_flipped(base, 8, s),
        MutationStrategy::BitFlip16 => bit_flipped(base, 16, s),
        MutationStrategy::BitFlip32 => bit_flipped(base, 32, s),
        MutationStrategy::ByteFlip => byte_mutated(base, 0, s),
        MutationStrategy::ByteZero => byte_mutated(base, 1, s),
        MutationStrategy::ByteMax => byte_mutated(base, 2, s),
        MutationStrategy::ArithmeticAdd => nudged(base, true, s),
        MutationStrategy::ArithmeticSub => nudged(base, false, s),
        MutationStrategy::InterestingValue => endangered(base, s),
        MutationStrategy::Splice => spliced(base, other, config, s),
        MutationStrategy::Havoc => (base, s),
        MutationStrategy::StructSplice => struct_spliced(base, other, config, s),
    }
}

/// What a scheduler's draws and counts depend on.
pub struct MutatorModel {
    /// State of the random source.
    pub rng: RngState,
    /// Applications of each operator.
    pub tally: Seq<u64>,
}

/// What `rounds` links give, and the draws and counts after them. An empty
/// input gets a random byte instead of a link.
pub open spec fn chained(
    bytes: Seq<u8>,
    donor: Option<Seq<u8>>,
    config: MutatorConfig,
    rounds: int,
    m: MutatorModel,
) -> (Seq<u8>, MutatorModel)
    decreases rounds,
{
    if rounds <= 0 {
        (bytes, m)
    } else if bytes.len() == 0 {
        let d = drawn_u8(m.rng);
        chained(
            bytes.push(d.0),
            donor,
            config,
            rounds - 1,
            MutatorModel { rng: d.1, tally: m.tally },
        )
    } else {
        let d = picked(m.rng, 14);
        let strategy = chain_links()[d.0];
        let e = link_applied(strategy, bytes, donor, config, d.1);
        chained(
            e.0,
            donor,
            config,
            rounds - 1,
            MutatorModel { rng: e.1, tally: tallied(m.tally, strategy) },
        )
    }
}

/// What a chain of random length gives.
pub open spec fn wrecked(
    bytes: Seq<u8>,
    donor: Option<Seq<u8>>,
    config: MutatorConfig,
    m: MutatorModel,
) -> (Seq<u8>, MutatorModel) {
    let d = between(m.rng, 2, config.havoc_max_rounds as int);
    chained(bytes, donor, config, d.0, MutatorModel { rng: d.1, tally: m.tally })
}

/// What applying an operator gives, and the draws and counts after it.
pub open spec fn mutated(
    strategy: MutationStrategy,
    base: Seq<u8>,
    donor: Option<Seq<u8>>,
    config: MutatorConfig,
    m: MutatorModel,
) -> (Seq<u8>, MutatorModel) {
    let tally = tallied(m.tally, strategy);
    if strategy is Havoc {
        wrecked(base, donor, config, MutatorModel { rng: m.rng, tally })
    } else {
        let e = link_applied(strategy, base, donor, config, m.rng);
        (e.0, MutatorModel { rng: e.1, tally })
    }
}

/// The operator that is drawn, and the state after the draw.
pub open spec fn drawn_strategy(s: RngState) -> (MutationStrategy, RngState) {
    let d = picked(s, 15);
    (all_strategies()[d.0], d.1)
}

proof fn chain_grows(
    stages: Seq<Seq<u8>>,
    links: Seq<MutationStrategy>,
    donor: Option<Seq<u8>>,
    config: MutatorConfig,
    link: MutationStrategy,
    out: Seq<u8>,
)
    requires
        is_chain(stages, links, donor, config),
        !(link is Havoc),
        link_does(link, stages.last(), donor, config, out),
    ensures
        is_chain(stages.push(out), links.push(link), donor, config),
        forall|tally: Seq<u64>| #[trigger]
            all_tallied(tally, links.push(link)) == tallied(all_tallied(tally, links), link),
{
    let more = links.push(link);
    let grown = stages.push(out);
    assert(more.drop_last() =~= links);
    assert forall|i: int| 0 <= i < more.len() implies {
        &&& !(#[trigger] more[i] is Havoc)
        &&& link_does(more[i], grown[i], donor, config, grown[i + 1])
    } by {
        if i < links.len() {
            assert(more[i] == links[i]);
            assert(grown[i] == stages[i] && grown[i + 1] == stages[i + 1]);
        } else {
            assert(grown[i] == stages.last() && grown[i + 1] == out);
        }
    }
}

/// The mutation scheduler: it draws operators and applies them.
pub struct MutationScheduler {
    /// The random source.
    pub rng: FuzzRng,
    /// Settings.
    pub config: MutatorConfig,
    /// Counts of applied operators.
    pub stats: MutationStats,
}

/// The bytes of an optional input.
pub open spec fn donor_view(donor: Option<&[u8]>) -> Option<Seq<u8>> {
    match donor {
        Some(d) => Some(d@),
        None => None,
    }
}

impl View for MutationScheduler {
    type V = MutatorModel;

    open spec fn view(&self) -> MutatorModel {
        MutatorModel { rng: self.rng@, tally: self.stats.per_strategy@ }
    }
}

impl MutationScheduler {
    /// The counts add up.
    pub open spec fn wf(self) -> bool {
        self.stats.wf()
    }

    /// Nothing but the random source has changed.
    pub open spec fn only_drew(self, before: Self) -> bool {
        &&& self.wf()
        &&& self.config == before.config
        &&& self.stats == before.stats
    }

    /// A scheduler with a random source seeded by the operating system.
    pub fn new(config: MutatorConfig) -> (scheduler: Self)
        ensures
            scheduler.wf(),
            scheduler.config == config,
            scheduler.stats.total_mutations == 0,
            scheduler.stats.interesting_mutations == 0,
            scheduler@.tally == Seq::new(STRATEGY_COUNT as nat, |i: int| 0u64),
    {
        Self::with_seed(config, None)
    }

    /// A scheduler whose draws are replayed by the same seed; without one the
    /// operating system seeds it.
    pub fn with_seed(config: MutatorConfig, seed: Option<u64>) -> (scheduler: Self)
        ensures
            scheduler.wf(),
            scheduler.config == config,
            scheduler.stats.total_mutations == 0,
            scheduler.stats.interesting_mutations == 0,
            scheduler@.tally == Seq::new(STRATEGY_COUNT as nat, |i: int| 0u64),
            seed matches Some(s) ==> scheduler@.rng == seeded(s),
    {
        MutationScheduler { rng: FuzzRng::new(seed), config, stats: MutationStats::default() }
    }

    /// Flips `count` consecutive bits at a random place. An empty input becomes
    /// a zero byte.
    pub fn bit_flip(&mut self, input: &[u8], count: usize) -> (out: Vec<u8>)
        requires
            old(self).wf(),
        ensures
            final(self).only_drew(*old(self)),
            (out@, final(self)@.rng) == bit_flipped(input@, count as nat, old(self)@.rng),
            out@.len() > 0,
            flips_bits(input@, count as nat, out@),
    {
        if input.len() == 0 {
            let out: Vec<u8> = vec![0u8];
            assert(out@ =~= seq![0u8]);
            return out;
        }
        let total: usize = if input.len() > usize::MAX / 8 {
            usize::MAX
        } else {
            input.len() * 8
        };
        let start: usize = self.rng.below(total);
        let mut out: Vec<u8> = slice_to_vec(input);
        let mut done: usize = 0;
        while done < count
            invariant
                done <= count,
                start < total,
                total == bit_count(input@.len() as int),
                input@.len() > 0,
                out@ == flipped(input@, start as int, done as nat),
                out@.len() == input@.len(),
            decreases count - done,
        {
            let bit: usize = ((start as u128 + done as u128) % (total as u128)) as usize;
            assert(bit == (start + (done + 1) - 1) % bit_count(input@.len() as int));
            let byte: usize = bit / 8;
            let flipped_byte: u8 = out[byte] ^ (1u8 << ((bit % 8) as u8));
            out.set(byte, flipped_byte);
            done = done + 1;
        }
        out
    }

    /// Inverts, zeroes or fills one to eight random bytes. An empty input
    /// becomes a zero byte.
    pub fn byte_mutate(&mut self, input: &[u8], mode: u8) -> (out: Vec<u8>)
        requires
            old(self).wf(),
        ensures
            final(self).only_drew(*old(self)),
            (out@, final(self)@.rng) == byte_mutated(input@, mode, old(self)@.rng),
            out@.len() > 0,
            input@.len() > 0 ==> out@.len() == input@.len(),
            overwrites_bytes(input@, mode, out@),
    {
        if input.len() == 0 {
            let out: Vec<u8> = vec![0u8];
            assert(out@ =~= seq![0u8]);
            return out;
        }
        let mut out: Vec<u8> = slice_to_vec(input);
        let most: usize = if input.len() < 8 {
            input.len()
        } else {
            8
        };
        let count: usize = self.rng.range(1, most);
        let ghost drawn = self.rng@;
        let ghost mut places: Seq<int> = Seq::empty();
        let mut done: usize = 0;
        while done < count
            invariant
                done <= count,
                1 <= count,
                self.only_drew(*old(self)),
                out@.len() == input@.len(),
                input@.len() > 0,
                bytes_overwritten(out@, mode, count - done, self.rng@) == bytes_overwritten(
                    input@,
                    mode,
                    count as int,
                    drawn,
                ),
                places.len() == done,
                forall|i: int| 0 <= i < places.len() ==> 0 <= #[trigger] places[i] < input@.len(),
                out@ == overwritten_at(input@, mode, places),
            decreases count - done,
        {
            let place: usize = self.rng.below(out.len());
            let byte: u8 = out[place];
            let new: u8 = if mode == 0 {
                byte ^ 0xff
            } else if mode == 1 {
                0
            } else {
                0xff
            };
            out.set(place, new);
            proof {
                let more = places.push(place as int);
                assert(more.drop_last() =~= places);
                places = more;
            }
            done = done + 1;
        }
        out
    }

    /// Adds to or subtracts from a random byte a number from one to
    /// thirty-five. An empty input becomes a zero byte.
    pub fn arithmetic(&mut self, input: &[u8], add: bool) -> (out: Vec<u8>)
        requires
            old(self).wf(),
        ensures
            final(self).only_drew(*old(self)),
            (out@, final(self)@.rng) == nudged(input@, add, old(self)@.rng),
            out@.len() > 0,
            nudges_byte(input@, add, out@),
    {
        if input.len() == 0 {
            let out: Vec<u8> = vec![0u8];
            assert(out@ =~= seq![0u8]);
            return out;
        }
        let mut out: Vec<u8> = slice_to_vec(input);
        let place: usize = self.rng.below(out.len());
        let delta: u8 = self.rng.range_u8(1, 35);
        let new: u8 = if add {
            out[place].wrapping_add(delta)
        } else {
            out[place].wrapping_sub(delta)
        };
        assert(new == shifted(input@[place as int], delta, add));
        out.set(place, new);
        out
    }

    /// Writes a dangerous integer over eight bytes at a random place. A shorter
    /// input has a small number added to a byte.
    pub fn interesting_value(&mut self, input: &[u8]) -> (out: Vec<u8>)
        requires
            old(self).wf(),
        ensures
            final(self).only_drew(*old(self)),
            (out@, final(self)@.rng) == endangered(input@, old(self)@.rng),
            out@.len() > 0,
            plants_integer(input@, out@),
    {
        if input.len() < 8 {
            return self.arithmetic(input, true);
        }
        let list: [i64; 20] = [
            0,
            1,
            -1,
            0x7fff_ffff_ffff_ffff,
            -0x8000_0000_0000_0000,
            0x7fff_ffff,
            -0x8000_0000,
            0x7fff,
            -0x8000,
            0xff,
            0x7f,
            0x80,
            0x100,
            0xffff,
            0x7fff,
            0x8000,
            0x1_0000,
            0xffff_ffff,
            0x7fff_ffff,
            -0x8000_0000,
        ];
        assert(list@ =~= dangerous_integers());
        let choice: usize = self.rng.below(20);
        let word: Vec<u8> = u64_to_le_bytes(list[choice] as u64);
        let place: usize = self.rng.range(0, input.len() - 8);
        let mut out: Vec<u8> = slice_to_vec(slice_subrange(input, 0, place));
        out.extend_from_slice(word.as_slice());
        out.extend_from_slice(slice_subrange(input, place + 8, input.len()));
        assert(out@ =~= written_over(
            input@,
            place as int,
            spec_u64_to_le_bytes(dangerous_integers()[choice as int] as u64),
        ));
        out
    }

    /// Joins a random prefix of `base` and a random suffix of `donor`. Inputs
    /// that are too short for that leave `base` as it is.
    pub fn splice(&mut self, base: &[u8], donor: &[u8]) -> (out: Vec<u8>)
        requires
            old(self).wf(),
        ensures
            final(self).only_drew(*old(self)),
            (out@, final(self)@.rng) == spliced(base@, donor@, old(self).config, old(self)@.rng),
            joins_inputs(base@, donor@, old(self).config, out@),
            base@.len() > 0 ==> out@.len() > 0,
    {
        let least: usize = self.config.splice_min_bytes;
        if base.len() < least || donor.len() < least || base.len() < 2 {
            return slice_to_vec(base);
        }
        proof {
            let n = donor@.len() as int;
            let p = self.config.splice_max_fraction as int;
            assert(0 <= n * p <= 0xffff_ffff_ffff_ffff * 0xffff_ffff_ffff_ffff)
                by (nonlinear_arith)
                requires
                    0 <= n <= 0xffff_ffff_ffff_ffff,
                    0 <= p <= 0xffff_ffff_ffff_ffff,
            ;
        }
        let share: u128 = donor.len() as u128 * self.config.splice_max_fraction as u128
            / FRACTION_UNIT as u128;
        let limit: usize = if share < donor.len() as u128 {
            share as usize
        } else {
            donor.len()
        };
        assert(limit == suffix_limit(donor@.len() as int, self.config));
        if limit == 0 {
            return slice_to_vec(base);
        }
        let kept: usize = self.rng.range(1, base.len() - 1);
        let from: usize = self.rng.range(donor.len() - limit, donor.len() - 1);
        let mut out: Vec<u8> = slice_to_vec(slice_subrange(base, 0, kept));
        out.extend_from_slice(slice_subrange(donor, from, donor.len()));
        assert(out@ =~= base@.take(kept as int) + donor@.skip(from as int));
        out
    }

    /// Swaps a random item of the first list for one of the second, and writes
    /// the first list as a JSON array.
    pub fn swap_item(&mut self, base: Vec<Vec<u8>>, donor: &Vec<Vec<u8>>) -> (out: Vec<u8>)
        requires
            old(self).wf(),
            base@.len() > 0,
            donor@.len() > 0,
        ensures
            final(self).only_drew(*old(self)),
            (out@, final(self)@.rng) == item_swapped(texts(base@), texts(donor@), old(self)@.rng),
            swaps_item(texts(base@), texts(donor@), out@),
    {
        let mut items: Vec<Vec<u8>> = base;
        let to: usize = self.rng.below(items.len());
        let from: usize = self.rng.below(donor.len());
        let item: Vec<u8> = slice_to_vec(donor[from].as_slice());
        items.set(to, item);
        assert(texts(items@) =~= texts(base@).update(to as int, texts(donor@)[from as int]));
        write_array(&items)
    }

    /// Swaps an argument of `base` for one of `donor` where both are JSON
    /// arrays with items, and splices their bytes otherwise.
    pub fn struct_splice(&mut self, base: &[u8], donor: &[u8]) -> (out: Vec<u8>)
        requires
            old(self).wf(),
        ensures
            final(self).only_drew(*old(self)),
            (out@, final(self)@.rng) == struct_spliced(
                base@,
                donor@,
                old(self).config,
                old(self)@.rng,
            ),
            swaps_argument(base@, donor@, old(self).config, out@),
            base@.len() > 0 ==> out@.len() > 0,
    {
        match (array_items(base), array_items(donor)) {
            (Some(b), Some(d)) => {
                if b.len() > 0 && d.len() > 0 {
                    return self.swap_item(b, &d);
                }
            },
            _ => {},
        }
        self.splice(base, donor)
    }

    /// Applies an operator that is not the chain.
    fn apply_link(
        &mut self,
        base: &[u8],
        donor: Option<&[u8]>,
        strategy: MutationStrategy,
    ) -> (out: Vec<u8>)
        requires
            old(self).wf(),
            !(strategy is Havoc),
        ensures
            final(self).only_drew(*old(self)),
            (out@, final(self)@.rng) == link_applied(
                strategy,
                base@,
                donor_view(donor),
                old(self).config,
                old(self)@.rng,
            ),
            link_does(strategy, base@, donor_view(donor), old(self).config, out@),
            base@.len() > 0 ==> out@.len() > 0,
    {
        let other: &[u8] = match donor {
            Some(d) => d,
            None => base,
        };
        match strategy {
            MutationStrategy::BitFlip1 => self.bit_flip(base, 1),
            MutationStrategy::BitFlip2 => self.bit_flip(base, 2),
            MutationStrategy::BitFlip4 => self.bit_flip(base, 4),
            MutationStrategy::BitFlip8 => self.bit_flip(base, 8),
            MutationStrategy::BitFlip16 => self.bit_flip(base, 16),
            MutationStrategy::BitFlip32 => self.bit_flip(base, 32),
            MutationStrategy::ByteFlip => self.byte_mutate(base, 0),
            MutationStrategy::ByteZero => self.byte_mutate(base, 1),
            MutationStrategy::ByteMax => self.byte_mutate(base, 2),
            MutationStrategy::ArithmeticAdd => self.arithmetic(base, true),
            MutationStrategy::ArithmeticSub => self.arithmetic(base, false),
            MutationStrategy::InterestingValue => self.interesting_value(base),
            MutationStrategy::Splice => self.splice(base, other),
            MutationStrategy::Havoc => slice_to_vec(base),
            MutationStrategy::StructSplice => self.struct_splice(base, other),
        }
    }

    /// Applies a random chain of the other operators, and counts each of them.
    pub fn havoc(&mut self, input: &[u8], donor: Option<&[u8]>) -> (out: Vec<u8>)
        requires
            old(self).wf(),
            old(self).config.havoc_max_rounds >= 2,
            old(self).stats.total_mutations + old(self).config.havoc_max_rounds <= u64::MAX,
        ensures
            final(self).wf(),
            final(self).config == old(self).config,
            (out@, final(self)@) == wrecked(
                input@,
                donor_view(donor),
                old(self).config,
                old(self)@,
            ),
            out@.len() > 0,
            chain_does(
                input@,
                donor_view(donor),
                old(self).config,
                out@,
                old(self).stats.per_strategy@,
                final(self).stats.per_strategy@,
            ),
            old(self).stats.total_mutations + 1 <= final(self).stats.total_mutations
                <= old(self).stats.total_mutations + old(self).config.havoc_max_rounds,
            final(self).stats.total_mutations == old(self).stats.total_mutations + between(
                old(self)@.rng,
                2,
                old(self).config.havoc_max_rounds as int,
            ).0 - (if input@.len() == 0 {
                1int
            } else {
                0
            }),
            final(self).stats.per_strategy@[13] == old(self).stats.per_strategy@[13],
            final(self).stats.interesting_mutations == old(self).stats.interesting_mutations,
    {
        let most: usize = self.config.havoc_max_rounds;
        let rounds: usize = self.rng.range(2, most);
        let ghost start = self@;
        let all: &'static [MutationStrategy] = MutationStrategy::all();
        let mut out: Vec<u8> = slice_to_vec(input);
        let ghost mut stages: Seq<Seq<u8>> = seq![input@];
        let ghost mut links: Seq<MutationStrategy> = Seq::empty();
        let mut done: usize = 0;
        while done < rounds
            invariant
                self.wf(),
                all@ == all_strategies(),
                self.config == old(self).config,
                self.stats.interesting_mutations == old(self).stats.interesting_mutations,
                2 <= rounds <= self.config.havoc_max_rounds,
                done <= rounds,
                links.len() + (if input@.len() == 0 && done > 0 {
                    1nat
                } else {
                    0
                }) == done,
                self.stats.total_mutations == old(self).stats.total_mutations + links.len(),
                self.stats.per_strategy@ == all_tallied(old(self).stats.per_strategy@, links),
                self.stats.per_strategy@[13] == old(self).stats.per_strategy@[13],
                is_chain(stages, links, donor_view(donor), self.config),
                stages.last() == out@,
                input@.len() > 0 || done == 0 ==> stages[0] == input@,
                input@.len() == 0 && done > 0 ==> stages[0].len() == 1,
                old(self).stats.total_mutations + old(self).config.havoc_max_rounds <= u64::MAX,
                done > 0 ==> out@.len() > 0,
                chained(out@, donor_view(donor), self.config, rounds - done, self@) == chained(
                    input@,
                    donor_view(donor),
                    self.config,
                    rounds as int,
                    start,
                ),
            decreases rounds - done,
        {
            if out.len() == 0 {
                let byte: u8 = self.rng.any_u8();
                out.push(byte);
                proof {
                    stages = seq![out@];
                }
            } else {
                let choice: usize = self.rng.below(14);
                let strategy: MutationStrategy = all[if choice < 13 {
                    choice
                } else {
                    choice + 1
                }];
                assert(strategy == chain_links()[choice as int]);
                self.stats.record(strategy);
                out = self.apply_link(out.as_slice(), donor, strategy);
                proof {
                    chain_grows(stages, links, donor_view(donor), self.config, strategy, out@);
                    stages = stages.push(out@);
                    links = links.push(strategy);
                }
            }
            done = done + 1;
        }
        assert(is_chain(stages, links, donor_view(donor), self.config));
        out
    }

    /// Applies an operator to `base` and counts it; splices take their second
    /// input from `donor` if there is one.
    pub fn mutate(
        &mut self,
        base: &[u8],
        donor: Option<&[u8]>,
        strategy: MutationStrategy,
    ) -> (out: Vec<u8>)
        requires
            old(self).wf(),
            old(self).stats.total_mutations < u64::MAX,
            strategy is Havoc ==> old(self).config.havoc_max_rounds >= 2 && old(
                self,
            ).stats.total_mutations + old(self).config.havoc_max_rounds < u64::MAX,
        ensures
            final(self).wf(),
            final(self).config == old(self).config,
            (out@, final(self)@) == mutated(
                strategy,
                base@,
                donor_view(donor),
                old(self).config,
                old(self)@,
            ),
            strategy is Havoc ==> chain_does(
                base@,
                donor_view(donor),
                old(self).config,
                out@,
                tallied(old(self).stats.per_strategy@, strategy),
                final(self).stats.per_strategy@,
            ),
            !(strategy is Havoc) ==> {
                &&& link_does(strategy, base@, donor_view(donor), old(self).config, out@)
                &&& final(self).stats.per_strategy@ == tallied(
                    old(self).stats.per_strategy@,
                    strategy,
                )
            },
            base@.len() > 0 ==> out@.len() > 0,
            old(self).stats.total_mutations + 1 <= final(self).stats.total_mutations,
            !(strategy is Havoc) ==> final(self).stats.total_mutations == old(
                self,
            ).stats.total_mutations + 1,
            strategy is Havoc ==> final(self).stats.total_mutations <= old(
                self,
            ).stats.total_mutations + 1 + old(self).config.havoc_max_rounds,
            final(self).stats.interesting_mutations == old(self).stats.interesting_mutations,
    {
        self.stats.record(strategy);
        match strategy {
            MutationStrategy::Havoc => self.havoc(base, donor),
            _ => self.apply_link(base, donor, strategy),
        }
    }

    /// Draws an operator and applies it.
    pub fn mutate_random(&mut self, base: &[u8], donor: Option<&[u8]>) -> (result: (
        Vec<u8>,
        MutationStrategy,
    ))
        requires
            old(self).wf(),
            old(self).config.havoc_max_rounds >= 2,
            old(self).stats.total_mutations + old(self).config.havoc_max_rounds < u64::MAX,
        ensures
            final(self).wf(),
            final(self).config == old(self).config,
            ({
                let d = drawn_strategy(old(self)@.rng);
                &&& result.1 == d.0
                &&& (result.0@, final(self)@) == mutated(
                    d.0,
                    base@,
                    donor_view(donor),
                    old(self).config,
                    (MutatorModel { rng: d.1, tally: old(self)@.tally }),
                )
            }),
            result.1 is Havoc ==> chain_does(
                base@,
                donor_view(donor),
                old(self).config,
                result.0@,
                tallied(old(self).stats.per_strategy@, result.1),
                final(self).stats.per_strategy@,
            ),
            !(result.1 is Havoc) ==> link_does(
                result.1,
                base@,
                donor_view(donor),
                old(self).config,
                result.0@,
            ),
            base@.len() > 0 ==> result.0@.len() > 0,
            old(self).stats.total_mutations + 1 <= final(self).stats.total_mutations <= old(
                self,
            ).stats.total_mutations + 1 + old(self).config.havoc_max_rounds,
            final(self).stats.interesting_mutations == old(self).stats.interesting_mutations,
    {
        let all: &'static [MutationStrategy] = MutationStrategy::all();
        let choice: usize = self.rng.below(all.len());
        let strategy: MutationStrategy = all[choice];
        let out: Vec<u8> = self.mutate(base, donor, strategy);
        (out, strategy)
    }
}

/// The links of a chain are all operators but the chain itself.
pub proof fn chain_has_the_other_operators(strategy: MutationStrategy)
    ensures
        chain_links().len() == 14,
        chain_links().contains(strategy) <==> !(strategy is Havoc),
{
    let links = chain_links();
    assert forall|i: int| 0 <= i < 14 implies !(#[trigger] links[i] is Havoc) by {
        assert(links[i] == all_strategies()[if i < 13 {
            i
        } else {
            i + 1
        }]);
    }
    if !(strategy is Havoc) {
        let i = strategy.place();
        let at = if i < 13 {
            i
        } else {
            i - 1
        };
        assert(links[at] == all_strategies()[i]);
        assert(links[at] == strategy);
    }
}

/// The mask that flipping consecutive bits puts on one byte.
spec fn flip_mask(len: int, start: int, count: nat, place: int) -> u8
    decreases count,
{
    if count == 0 {
        0
    } else {
        let bit = (start + count - 1) % bit_count(len);
        let before = flip_mask(len, start, (count - 1) as nat, place);
        if bit / 8 == place {
            before ^ (1u8 << ((bit % 8) as u8))
        } else {
            before
        }
    }
}

proof fn flipped_by_mask(bytes: Seq<u8>, start: int, count: nat)
    requires
        bytes.len() > 0,
        0 <= start,
    ensures
        flipped(bytes, start, count).len() == bytes.len(),
        forall|i: int|
            0 <= i < bytes.len() ==> #[trigger] flipped(bytes, start, count)[i] == bytes[i]
                ^ flip_mask(bytes.len() as int, start, count, i),
    decreases count,
{
    let len = bytes.len() as int;
    if count == 0 {
        assert forall|i: int| 0 <= i < len implies #[trigger] bytes[i] == bytes[i] ^ flip_mask(
            len,
            start,
            count,
            i,
        ) by {
            let b = bytes[i];
            assert(b == b ^ 0u8) by (bit_vector);
        }
    } else {
        let less = (count - 1) as nat;
        flipped_by_mask(bytes, start, less);
        let bit = (start + count - 1) % bit_count(len);
        assert(0 <= bit < bit_count(len));
        assert forall|i: int| 0 <= i < len implies #[trigger] flipped(bytes, start, count)[i]
            == bytes[i] ^ flip_mask(len, start, count, i) by {
            let b = bytes[i];
            let m = flip_mask(len, start, less, i);
            let k = 1u8 << ((bit % 8) as u8);
            assert((b ^ m) ^ k == b ^ (m ^ k)) by (bit_vector);
            assert(flipped(bytes, start, less)[i] == b ^ m);
        }
    }
}

/// Flipping bits keeps the length, and flipping the same bits again undoes it.
pub proof fn flips_undo_themselves(bytes: Seq<u8>, start: int, count: nat)
    requires
        bytes.len() > 0,
        0 <= start,
    ensures
        flipped(bytes, start, count).len() == bytes.len(),
        flipped(flipped(bytes, start, count), start, count) == bytes,
{
    let once = flipped(bytes, start, count);
    let twice = flipped(once, start, count);
    flipped_by_mask(bytes, start, count);
    flipped_by_mask(once, start, count);
    assert forall|i: int| 0 <= i < bytes.len() implies twice[i] == bytes[i] by {
        let b = bytes[i];
        let m = flip_mask(bytes.len() as int, start, count, i);
        assert((b ^ m) ^ m == b) by (bit_vector);
        assert(once[i] == b ^ m);
    }
    assert(twice =~= bytes);
}

/// Flipping one bit changes that bit of one byte and nothing else.
pub proof fn one_flip_changes_one_bit(bytes: Seq<u8>, start: int)
    requires
        bytes.len() > 0,
        0 <= start < bit_count(bytes.len() as int),
    ensures
        flipped(bytes, start, 1) == bytes.update(
            start / 8,
            bytes[start / 8] ^ (1u8 << ((start % 8) as u8)),
        ),
        bytes[start / 8] ^ (1u8 << ((start % 8) as u8)) != bytes[start / 8],
{
    reveal_with_fuel(flipped, 2);
    assert(start % bit_count(bytes.len() as int) == start) by {
        vstd::arithmetic::div_mod::lemma_small_mod(
            start as nat,
            bit_count(bytes.len() as int) as nat,
        );
    }
    let b = bytes[start / 8];
    let k = (start % 8) as u8;
    assert(k < 8 ==> b ^ (1u8 << k) != b) by (bit_vector);
}

/// Adding a small number changes a byte, and subtracting it again undoes it.
pub proof fn nudge_changes_the_byte(byte: u8, delta: u8, add: bool)
    requires
        1 <= delta <= 35,
    ensures
        shifted(byte, delta, add) != byte,
        shifted(shifted(byte, delta, add), delta, !add) == byte,
{
}

/// Replay: what a scheduler made from a seed produces depends on the seed, its
/// settings and its inputs alone.
pub proof fn seed_replays_mutations(
    a: MutationScheduler,
    b: MutationScheduler,
    seed: u64,
    base: Seq<u8>,
    donor: Option<Seq<u8>>,
)
    requires
        a.config == b.config,
        a@.rng == seeded(seed),
        b@.rng == seeded(seed),
        a@.tally == b@.tally,
    ensures
        drawn_strategy(a@.rng) == drawn_strategy(b@.rng),
        forall|strategy: MutationStrategy| #[trigger]
            mutated(strategy, base, donor, a.config, a@) == mutated(
                strategy,
                base,
                donor,
                b.config,
                b@,
            ),
{
}

}
