//! What each mutation operator does to an input, for each of its draws: every bit,
//! every byte, every number and every cut can come up.
use crate::input_gen::bytes_mutated;
use crate::json::{array_text, json_array_items};
use crate::mutation::{
    bit_count, bytes_overwritten, dangerous_integers, flipped, link_applied, spliceable,
    suffix_limit, toggled, MutationStrategy, MutatorConfig,
};
use crate::rng::{chanced, drawn_u8, ranged_u64, ranged_u8, RngState};
use vstd::bytes::*;
use vstd::prelude::*;

verus! {

/// Whether a bit is set; bits are counted from the lowest one of the first byte.
pub open spec fn bit_set(bytes: Seq<u8>, j: int) -> bool {
    bytes[j / 8] & (1u8 << ((j % 8) as u8)) != 0
}

/// How far a bit lies behind another one; after the last bit comes the first.
pub open spec fn bits_behind(j: int, start: int, bits: int) -> int {
    if j >= start {
        j - start
    } else {
        j - start + bits
    }
}

proof fn toggling_one(bytes: Seq<u8>, k: int, j: int)
    requires
        0 <= k < 8 * bytes.len(),
        0 <= j < 8 * bytes.len(),
    ensures
        toggled(bytes, k).len() == bytes.len(),
        bit_set(toggled(bytes, k), j) == (bit_set(bytes, j) != (j == k)),
{
    let x = bytes[j / 8];
    let a = (k % 8) as u8;
    let b = (j % 8) as u8;
    assert(a < 8 && b < 8 ==> (((x ^ (1u8 << a)) & (1u8 << b) != 0) == ((x & (1u8 << b) != 0) != (a
        == b)))) by (bit_vector);
}

proof fn flipping(bytes: Seq<u8>, start: int, count: nat, j: int)
    requires
        0 < bytes.len(),
        8 * bytes.len() <= usize::MAX,
        0 <= start < 8 * bytes.len(),
        count <= 8 * bytes.len(),
        0 <= j < 8 * bytes.len(),
    ensures
        flipped(bytes, start, count).len() == bytes.len(),
        bit_set(flipped(bytes, start, count), j) == (bit_set(bytes, j) != (bits_behind(
            j,
            start,
            8 * bytes.len() as int,
        ) < count)),
    decreases count,
{
    if count > 0 {
        let bits = 8 * bytes.len() as int;
        let less = (count - 1) as nat;
        assert(bit_count(bytes.len() as int) == bits);
        flipping(bytes, start, less, j);
        let last = (start + count - 1) % bits;
        assert(last == if start + count - 1 < bits {
            start + count - 1
        } else {
            start + count - 1 - bits
        }) by {
            if start + count - 1 < bits {
                vstd::arithmetic::div_mod::lemma_small_mod(
                    (start + count - 1) as nat,
                    bits as nat,
                );
            } else {
                vstd::arithmetic::div_mod::lemma_mod_sub_multiples_vanish(
                    start + count - 1,
                    bits,
                );
                vstd::arithmetic::div_mod::lemma_small_mod(
                    (start + count - 1 - bits) as nat,
                    bits as nat,
                );
            }
        }
        toggling_one(flipped(bytes, start, less), last, j);
    }
}

/// How many bits an operator flips.
pub open spec fn bits_flipped(strategy: MutationStrategy) -> nat {
    match strategy {
        MutationStrategy::BitFlip1 => 1,
        MutationStrategy::BitFlip2 => 2,
        MutationStrategy::BitFlip4 => 4,
        MutationStrategy::BitFlip8 => 8,
        MutationStrategy::BitFlip16 => 16,
        MutationStrategy::BitFlip32 => 32,
        _ => 0,
    }
}

/// A bit flip changes as many bits in a row as it is named after, and no other bit.
/// The first one is drawn among all bits of the input.
pub proof fn bit_flips_flip_a_row_of_bits(
    strategy: MutationStrategy,
    bytes: Seq<u8>,
    donor: Option<Seq<u8>>,
    config: MutatorConfig,
    s: RngState,
    j: int,
)
    requires
        bits_flipped(strategy) > 0,
        bits_flipped(strategy) <= 8 * bytes.len() <= usize::MAX,
        8 * bytes.len() <= u64::MAX,
        0 <= j < 8 * bytes.len(),
        ranged_u64(s, 0, (8 * bytes.len() - 1) as u64).0 < 8 * bytes.len(),
    ensures
        ({
            let start = ranged_u64(s, 0, (8 * bytes.len() - 1) as u64);
            let out = link_applied(strategy, bytes, donor, config, s);
            &&& out.0.len() == bytes.len()
            &&& out.1 == start.1
            &&& (bit_set(out.0, j) != bit_set(bytes, j)) <==> bits_behind(
                j,
                start.0 as int,
                8 * bytes.len() as int,
            ) < bits_flipped(strategy)
        }),
{
    let start = ranged_u64(s, 0, (8 * bytes.len() - 1) as u64);
    assert(bit_count(bytes.len() as int) == 8 * bytes.len());
    flipping(bytes, start.0 as int, bits_flipped(strategy), j);
}

/// The byte operators overwrite one byte after the other, as many as were drawn
/// between one and eight, or as there are bytes; each place is drawn among all. A
/// byte is inverted, cleared or filled.
pub proof fn byte_operators_overwrite_drawn_bytes(
    bytes: Seq<u8>,
    mode: u8,
    donor: Option<Seq<u8>>,
    config: MutatorConfig,
    s: RngState,
)
    requires
        bytes.len() > 0,
        mode <= 2,
    ensures
        ({
            let strategy = if mode == 0 {
                MutationStrategy::ByteFlip
            } else if mode == 1 {
                MutationStrategy::ByteZero
            } else {
                MutationStrategy::ByteMax
            };
            let count = ranged_u64(
                s,
                1,
                if bytes.len() < 8 {
                    bytes.len() as u64
                } else {
                    8
                },
            );
            link_applied(strategy, bytes, donor, config, s) == bytes_overwritten(
                bytes,
                mode,
                count.0 as int,
                count.1,
            )
        }),
        forall|count: int|
            count > 0 ==> #[trigger] bytes_overwritten(bytes, mode, count, s) == ({
                let place = ranged_u64(s, 0, (bytes.len() - 1) as u64);
                let byte = bytes[place.0 as int];
                bytes_overwritten(
                    bytes.update(
                        place.0 as int,
                        if mode == 0 {
                            (255 - byte) as u8
                        } else if mode == 1 {
                            0
                        } else {
                            255
                        },
                    ),
                    mode,
                    count - 1,
                    place.1,
                )
            }),
        bytes_overwritten(bytes, mode, 0, s) == (bytes, s),
{
    let place = ranged_u64(s, 0, (bytes.len() - 1) as u64);
    let byte = bytes[place.0 as int];
    assert(byte ^ 0xff == 255 - byte) by (bit_vector);
}

/// The arithmetic operators add to or subtract from one byte a number drawn between
/// one and thirty-five, modulo 256; the place is drawn among all bytes.
pub proof fn arithmetic_operators_move_a_byte(
    bytes: Seq<u8>,
    donor: Option<Seq<u8>>,
    config: MutatorConfig,
    s: RngState,
)
    requires
        bytes.len() > 0,
    ensures
        ({
            let place = ranged_u64(s, 0, (bytes.len() - 1) as u64);
            let delta = ranged_u8(place.1, 1, 35);
            let i = place.0 as int;
            let sum = link_applied(MutationStrategy::ArithmeticAdd, bytes, donor, config, s);
            let rest = link_applied(MutationStrategy::ArithmeticSub, bytes, donor, config, s);
            &&& sum.1 == delta.1 && rest.1 == delta.1
            &&& exists|up: u8, down: u8|
                {
                    &&& sum.0 == #[trigger] bytes.update(i, up)
                    &&& rest.0 == #[trigger] bytes.update(i, down)
                    &&& (up - bytes[i] - delta.0) % 256 == 0
                    &&& (bytes[i] - down - delta.0) % 256 == 0
                }
        }),
{
    let place = ranged_u64(s, 0, (bytes.len() - 1) as u64);
    let delta = ranged_u8(place.1, 1, 35);
    let i = place.0 as int;
    let up = ((bytes[i] + delta.0) % 256) as u8;
    let down = ((bytes[i] - delta.0) % 256) as u8;
    assert(link_applied(MutationStrategy::ArithmeticAdd, bytes, donor, config, s).0
        == bytes.update(i, up));
    assert(link_applied(MutationStrategy::ArithmeticSub, bytes, donor, config, s).0
        == bytes.update(i, down));
}

/// An interesting value is one of twenty, written in little-endian order over eight
/// bytes at a place drawn among all that have eight bytes; the other bytes stay.
pub proof fn interesting_values_are_written(
    bytes: Seq<u8>,
    donor: Option<Seq<u8>>,
    config: MutatorConfig,
    s: RngState,
)
    requires
        bytes.len() >= 8,
        ranged_u64(ranged_u64(s, 0, 19).1, 0, (bytes.len() - 8) as u64).0 <= bytes.len() - 8,
    ensures
        ({
            let choice = ranged_u64(s, 0, 19);
            let place = ranged_u64(choice.1, 0, (bytes.len() - 8) as u64);
            let out = link_applied(MutationStrategy::InterestingValue, bytes, donor, config, s);
            let i = place.0 as int;
            &&& out.1 == place.1
            &&& out.0.len() == bytes.len()
            &&& spec_u64_from_le_bytes(out.0.subrange(i, i + 8))
                == dangerous_integers()[choice.0 as int] as u64
            &&& out.0.take(i) == bytes.take(i)
            &&& out.0.skip(i + 8) == bytes.skip(i + 8)
        }),
{
    lemma_auto_spec_u64_to_from_le_bytes();
    let choice = ranged_u64(s, 0, 19);
    let place = ranged_u64(choice.1, 0, (bytes.len() - 8) as u64);
    let i = place.0 as int;
    let word = spec_u64_to_le_bytes(dangerous_integers()[choice.0 as int] as u64);
    let out = link_applied(MutationStrategy::InterestingValue, bytes, donor, config, s);
    assert(out.0 == bytes.take(i) + word + bytes.skip(i + 8));
    assert(out.0.subrange(i, i + 8) =~= word);
    assert(out.0.take(i) =~= bytes.take(i));
    assert(out.0.skip(i + 8) =~= bytes.skip(i + 8));
}

/// Among the interesting values are the ends of the integers of 16, 32 and 64 bits,
/// and the numbers around zero.
pub proof fn interesting_values_hold_the_ends(n: i64)
    requires
        n == 0 || n == 1 || n == -1 || n == i64::MAX || n == i64::MIN || n == i32::MAX || n
            == i32::MIN || n == i16::MAX || n == i16::MIN || n == u8::MAX || n == u16::MAX || n
            == u32::MAX || n == 127 || n == 128 || n == 256 || n == 32768 || n == 65536,
    ensures
        dangerous_integers().len() == 20,
        dangerous_integers().contains(n),
{
    let list = dangerous_integers();
    assert(list[0] == 0 && list[1] == 1 && list[2] == -1);
    assert(list[3] == i64::MAX && list[4] == i64::MIN);
    assert(list[5] == i32::MAX && list[6] == i32::MIN);
    assert(list[7] == i16::MAX && list[8] == i16::MIN);
    assert(list[9] == u8::MAX && list[10] == 127 && list[11] == 128 && list[12] == 256);
    assert(list[13] == u16::MAX && list[15] == 32768 && list[16] == 65536);
    assert(list[17] == u32::MAX);
}

/// A splice keeps a part of the input that is drawn, never nothing and never all,
/// and takes from the donor a suffix of drawn length, never nothing and no more than
/// the share that the settings allow.
pub proof fn splices_join_a_prefix_and_a_suffix(
    base: Seq<u8>,
    donor: Seq<u8>,
    config: MutatorConfig,
    s: RngState,
)
    requires
        spliceable(base, donor, config),
        1 <= ranged_u64(s, 1, (base.len() - 1) as u64).0 < base.len(),
    ensures
        ({
            let limit = suffix_limit(donor.len() as int, config);
            let kept = ranged_u64(s, 1, (base.len() - 1) as u64);
            let from = ranged_u64(
                kept.1,
                (donor.len() - limit) as u64,
                (donor.len() - 1) as u64,
            );
            let out = link_applied(MutationStrategy::Splice, base, Some(donor), config, s);
            let n = kept.0 as int;
            &&& out.1 == from.1
            &&& donor.len() - limit <= from.0 < donor.len() ==> {
                &&& out.0.len() == n + donor.len() - from.0
                &&& out.0.take(n) == base.take(n)
                &&& out.0.skip(n) == donor.skip(from.0 as int)
            }
            &&& limit * 0x20_0000_0000_0000 <= donor.len() * config.splice_max_fraction || limit
                == donor.len()
            &&& (limit + 1) * 0x20_0000_0000_0000 > donor.len() * config.splice_max_fraction
                || limit == donor.len()
            &&& limit <= donor.len()
        }),
        base.len() >= config.splice_min_bytes && donor.len() >= config.splice_min_bytes,
{
    let limit = suffix_limit(donor.len() as int, config);
    let kept = ranged_u64(s, 1, (base.len() - 1) as u64);
    let from = ranged_u64(kept.1, (donor.len() - limit) as u64, (donor.len() - 1) as u64);
    let out = link_applied(MutationStrategy::Splice, base, Some(donor), config, s);
    let n = kept.0 as int;
    let total = donor.len() * config.splice_max_fraction as int;
    let unit: int = 0x20_0000_0000_0000;
    vstd::arithmetic::div_mod::lemma_fundamental_div_mod(total, unit);
    vstd::arithmetic::div_mod::lemma_mod_bound(total, unit);
    assert(0 <= total) by (nonlinear_arith)
        requires
            total == donor.len() * config.splice_max_fraction as int,
    ;
    if donor.len() - limit <= from.0 < donor.len() {
        assert(out.0 == base.take(n) + donor.skip(from.0 as int));
        assert(out.0.take(n) =~= base.take(n));
        assert(out.0.skip(n) =~= donor.skip(from.0 as int));
    }
}

/// Inputs that are too short, or of which the settings allow no suffix, are left as
/// they are.
pub proof fn short_inputs_are_not_spliced(
    base: Seq<u8>,
    donor: Seq<u8>,
    config: MutatorConfig,
    s: RngState,
)
    requires
        base.len() < 2 || base.len() < config.splice_min_bytes || donor.len()
            < config.splice_min_bytes,
    ensures
        link_applied(MutationStrategy::Splice, base, Some(donor), config, s).0 == base,
{
}

/// Of two JSON arrays with items, one item is swapped for one of the other; both are
/// drawn among all. Anything else is spliced as bytes.
pub proof fn struct_splices_swap_an_argument(
    base: Seq<u8>,
    donor: Seq<u8>,
    config: MutatorConfig,
    s: RngState,
)
    ensures
        ({
            let out = link_applied(MutationStrategy::StructSplice, base, Some(donor), config, s);
            match (json_array_items(base), json_array_items(donor)) {
                (Some(a), Some(b)) => if a.len() > 0 && b.len() > 0 {
                    let to = ranged_u64(s, 0, (a.len() - 1) as u64);
                    let from = ranged_u64(to.1, 0, (b.len() - 1) as u64);
                    out == (array_text(a.update(to.0 as int, b[from.0 as int])), from.1)
                } else {
                    out == link_applied(MutationStrategy::Splice, base, Some(donor), config, s)
                },
                _ => out == link_applied(MutationStrategy::Splice, base, Some(donor), config, s),
            }
        }),
{
}

/// Without a donor an input is spliced with itself; an empty input becomes a zero
/// byte where bits, bytes or numbers are changed.
pub proof fn inputs_stand_in(
    strategy: MutationStrategy,
    base: Seq<u8>,
    config: MutatorConfig,
    s: RngState,
)
    ensures
        link_applied(strategy, base, None, config, s) == link_applied(
            strategy,
            base,
            Some(base),
            config,
            s,
        ),
        base.len() == 0 && !(strategy is Havoc) && !(strategy is Splice) && !(
        strategy is StructSplice) ==> link_applied(strategy, base, None, config, s).0 == seq![0u8],
{
}

/// Mutating bytes in each of its six ways: which byte and which change is drawn
/// among all.
pub proof fn bytes_are_mutated_as_drawn(bytes: Seq<u8>, s: RngState)
    requires
        bytes.len() > 1,
    ensures
        ({
            let any = ranged_u64(s, 0, (bytes.len() - 1) as u64);
            let gap = ranged_u64(s, 0, bytes.len() as u64);
            let i = any.0 as int;
            let bit = ranged_u8(any.1, 0, 7);
            let clear = chanced(any.1, 1, 2);
            let delta = ranged_u8(any.1, 1, 35);
            let byte = drawn_u8(gap.1);
            &&& bytes_mutated(bytes, 0, s) == (
                bytes.update(i, bytes[i] ^ (1u8 << bit.0)),
                bit.1,
            )
            &&& bytes_mutated(bytes, 1, s) == (
                bytes.update(
                    i,
                    if clear.0 {
                        0
                    } else {
                        255
                    },
                ),
                clear.1,
            )
            &&& bytes_mutated(bytes, 2, s).1 == delta.1
            &&& exists|up: u8|
                bytes_mutated(bytes, 2, s).0 == #[trigger] bytes.update(i, up) && (up - bytes[i]
                    - delta.0) % 256 == 0
            &&& bytes_mutated(bytes, 3, s) == (bytes.insert(gap.0 as int, byte.0), byte.1)
            &&& bytes_mutated(bytes, 4, s) == (bytes.remove(i), any.1)
        }),
        forall|hint: u8| hint < 250 ==> #[trigger]
            bytes_mutated(bytes, hint, s) == bytes_mutated(bytes, (hint + 6) as u8, s),
{
    let any = ranged_u64(s, 0, (bytes.len() - 1) as u64);
    let delta = ranged_u8(any.1, 1, 35);
    let i = any.0 as int;
    let up = ((bytes[i] + delta.0) % 256) as u8;
    assert(bytes_mutated(bytes, 2, s).0 == bytes.update(i, up));
}

/// The sixth way repeats up to eight bytes from a drawn place at another one.
pub proof fn runs_are_repeated_as_drawn(bytes: Seq<u8>, s: RngState)
    requires
        bytes.len() > 0,
        ranged_u64(s, 0, (bytes.len() - 1) as u64).0 < bytes.len(),
    ensures
        ({
            let from = ranged_u64(s, 0, (bytes.len() - 1) as u64);
            let count = ranged_u64(from.1, 1, 8);
            let place = ranged_u64(count.1, 0, bytes.len() as u64);
            let out = bytes_mutated(bytes, 5, s);
            let n = if from.0 + count.0 <= bytes.len() {
                count.0 as int
            } else {
                bytes.len() - from.0
            };
            let a = from.0 as int;
            let at = place.0 as int;
            &&& out.1 == place.1
            &&& at <= bytes.len() && count.0 >= 1 ==> {
                &&& out.0.len() == bytes.len() + n
                &&& out.0.take(at) == bytes.take(at)
                &&& out.0.subrange(at, at + n) == bytes.subrange(a, a + n)
                &&& out.0.skip(at + n) == bytes.skip(at)
            }
        }),
{
    let from = ranged_u64(s, 0, (bytes.len() - 1) as u64);
    let count = ranged_u64(from.1, 1, 8);
    let place = ranged_u64(count.1, 0, bytes.len() as u64);
    let out = bytes_mutated(bytes, 5, s);
    let n = if from.0 + count.0 <= bytes.len() {
        count.0 as int
    } else {
        bytes.len() - from.0
    };
    let a = from.0 as int;
    let at = place.0 as int;
    if at <= bytes.len() && count.0 >= 1 {
        assert(out.0 == bytes.take(at) + bytes.subrange(a, a + n) + bytes.skip(at));
        assert(out.0.take(at) =~= bytes.take(at));
        assert(out.0.subrange(at, at + n) =~= bytes.subrange(a, a + n));
        assert(out.0.skip(at + n) =~= bytes.skip(at));
    }
}

}
