//! What draws make of values: every dangerous integer, every small one and every
//! length can come up, and so many values are no values as the settings say.
use crate::input_gen::{
    drawn_long, drawn_small, drawn_wide, edge_i128, edge_u64, generated, generated_args,
    power_of_two, printable, typed, typed_items, typed_pairs, InputGenConfig,
};
use crate::rng::{
    chanced, drawn_bool, drawn_i128, drawn_u32, drawn_u64, filled, ranged_i128, ranged_u32,
    ranged_u64, ranged_u8, RngState,
};
use crate::strkey::{addresses_are_valid, base32_bytes};
use crate::values::{SorobanValueType, ValueModel};
use vstd::prelude::*;

verus! {

/// A fraction is drawn with 53 bits.
pub open spec fn fraction_drawn(s: RngState) -> int {
    drawn_u64(s).0 as int / 2048
}

/// A generated value is bytes that are no value if the fraction drawn reaches the
/// share of valid ones, and a value of the type otherwise.
pub proof fn as_many_values_are_valid_as_set(
    ty: SorobanValueType,
    config: InputGenConfig,
    s: RngState,
)
    ensures
        fraction_drawn(s) < config.valid_draws ==> generated(ty, config, s) == typed(
            ty,
            0,
            config,
            drawn_u64(s).1,
        ),
        fraction_drawn(s) >= config.valid_draws ==> {
            let count = ranged_u64(drawn_u64(s).1, 1, 128);
            let bytes = filled(count.1, count.0 as nat);
            generated(ty, config, s) == (ValueModel::InvalidBytes(bytes.0), bytes.1)
        },
{
}

/// Three tenths of the wide integers are drawn among the dangerous ones, four tenths
/// are small, and the rest are any; the shares are exact but for one draw.
pub proof fn wide_integers_come_in_three_kinds(s: RngState)
    ensures
        10 * fraction_drawn(s) < 3 * 0x20_0000_0000_0000 ==> {
            let d = ranged_u64(drawn_u64(s).1, 0, 20);
            drawn_wide(s) == (edge_i128()[d.0 as int], d.1)
        },
        3 * 0x20_0000_0000_0000 <= 10 * fraction_drawn(s) && 10 * (fraction_drawn(s) + 1) < 7
            * 0x20_0000_0000_0000 ==> drawn_wide(s) == drawn_small(drawn_u64(s).1),
        10 * fraction_drawn(s) >= 7 * 0x20_0000_0000_0000 ==> drawn_wide(s) == drawn_i128(
            drawn_u64(s).1,
        ),
{
}

/// The ends of the integers of 128, 64 and 32 bits, their neighbours and the numbers
/// around zero are dangerous, so that some draw brings each of them up.
pub proof fn ends_are_dangerous(n: i128) -> (k: int)
    requires
        n == 0 || n == 1 || n == -1 || n == i128::MAX || n == i128::MIN || n == i128::MAX - 1 || n
            == i128::MIN + 1 || n == i64::MAX || n == i64::MIN || n == u64::MAX || n == u32::MAX
            || n == u64::MAX + 1 || n == i128::MAX / 2 || n == i128::MIN / 2,
    ensures
        edge_i128().len() == 21,
        0 <= k < 21,
        edge_i128()[k] == n,
{
    if n == 0 {
        0
    } else if n == 1 {
        1
    } else if n == -1 {
        2
    } else if n == i128::MAX {
        3
    } else if n == i128::MIN {
        4
    } else if n == i128::MAX / 2 {
        5
    } else if n == i128::MIN / 2 {
        6
    } else if n == u64::MAX + 1 {
        9
    } else if n == i128::MAX - 1 {
        15
    } else if n == i128::MIN + 1 {
        16
    } else if n == u64::MAX {
        17
    } else if n == u32::MAX {
        18
    } else if n == i64::MAX {
        19
    } else {
        20
    }
}

/// The ends of the unsigned integers of 32 and 64 bits are dangerous.
pub proof fn unsigned_ends_are_dangerous(n: u64) -> (k: int)
    requires
        n == 0 || n == 1 || n == u64::MAX || n == u64::MAX - 1 || n == u32::MAX || n == u32::MAX + 1,
    ensures
        edge_u64().len() == 9,
        0 <= k < 9,
        edge_u64()[k] == n,
{
    if n == 0 {
        0
    } else if n == 1 {
        1
    } else if n == u64::MAX {
        2
    } else if n == u64::MAX - 1 {
        3
    } else if n == u32::MAX {
        4
    } else {
        5
    }
}

/// Three tenths of the long integers are drawn among the dangerous ones, and the rest
/// are any.
pub proof fn long_integers_come_in_two_kinds(s: RngState)
    ensures
        chanced(s, 3, 10).0 ==> {
            let d = ranged_u64(chanced(s, 3, 10).1, 0, 8);
            drawn_long(s) == (edge_u64()[d.0 as int], d.1)
        },
        !chanced(s, 3, 10).0 ==> drawn_long(s) == drawn_u64(chanced(s, 3, 10).1),
{
}

proof fn powers_of_two()
    ensures
        power_of_two(0) == 1,
        power_of_two(1) == 2,
        power_of_two(2) == 4,
        power_of_two(3) == 8,
        power_of_two(4) == 16,
        power_of_two(5) == 32,
        power_of_two(6) == 64,
        power_of_two(7) == 128,
        power_of_two(8) == 256,
        power_of_two(9) == 512,
{
    reveal_with_fuel(power_of_two, 10);
}

/// Every integer but zero between minus a thousand and a thousand is a small one:
/// there are a power of two, a sign and a remainder whose draws bring it up.
pub proof fn small_integers_come_up(n: i128) -> (r: (u32, i128, i128))
    requires
        -1000 <= n <= 1000,
        n != 0,
    ensures
        r.0 <= 9,
        0 <= r.1 <= r.2,
        forall|s: RngState|
            ({
                let power = ranged_u32(s, 0, 9);
                let sign = chanced(power.1, 1, 2);
                let rest = ranged_i128(sign.1, 0, r.2);
                power.0 == r.0 && sign.0 == (n > 0) && rest.0 == r.1 ==> #[trigger] drawn_small(s)
                    == (n, rest.1)
            }),
{
    powers_of_two();
    let m = if n > 0 {
        n as int
    } else {
        -(n as int)
    };
    let k: u32 = if m < 2 {
        0
    } else if m < 4 {
        1
    } else if m < 8 {
        2
    } else if m < 16 {
        3
    } else if m < 32 {
        4
    } else if m < 64 {
        5
    } else if m < 128 {
        6
    } else if m < 256 {
        7
    } else if m < 512 {
        8
    } else {
        9
    };
    let base = power_of_two(k as nat);
    let most = if base < 1001 - base {
        base - 1
    } else {
        1000 - base
    };
    assert(base <= m <= base + most);
    (k, (m - base) as i128, most as i128)
}

/// Scalars are drawn as their types say: a word, a flag, or bytes of drawn or given
/// length.
pub proof fn scalars_are_drawn(config: InputGenConfig, depth: nat, n: usize, s: RngState)
    ensures
        typed(SorobanValueType::U32, depth, config, s) == (
            ValueModel::U32(drawn_u32(s).0),
            drawn_u32(s).1,
        ),
        typed(SorobanValueType::Bool, depth, config, s) == (
            ValueModel::Bool(drawn_bool(s).0),
            drawn_bool(s).1,
        ),
        typed(SorobanValueType::I128, depth, config, s) == (
            ValueModel::I128(drawn_wide(s).0),
            drawn_wide(s).1,
        ),
        typed(SorobanValueType::U64, depth, config, s) == (
            ValueModel::U64(drawn_long(s).0),
            drawn_long(s).1,
        ),
        typed(SorobanValueType::BytesN(n), depth, config, s) == (
            ValueModel::Bytes(filled(s, n as nat).0),
            filled(s, n as nat).1,
        ),
        ({
            let count = ranged_u64(s, 0, 64);
            let bytes = filled(count.1, count.0 as nat);
            typed(SorobanValueType::Bytes, depth, config, s) == (
                ValueModel::Bytes(bytes.0),
                bytes.1,
            )
        }),
{
}

proof fn printable_grows(text: Seq<char>, count: nat, s: RngState)
    ensures
        printable(text, count as int, s).0.len() == text.len() + count,
        printable(text, count as int, s).0.take(text.len() as int) == text,
    decreases count,
{
    if count == 0 {
        assert(text.take(text.len() as int) =~= text);
    } else {
        let d = ranged_u8(s, 0x20, 0x7e);
        let more = text.push(d.0 as char);
        printable_grows(more, (count - 1) as nat, d.1);
        let out = printable(text, count as int, s).0;
        assert(out.take(text.len() as int) =~= out.take(more.len() as int).take(
            text.len() as int,
        ));
        assert(more.take(text.len() as int) =~= text);
    }
}

/// Texts have the length drawn: up to 64 characters, and one to 32 for a symbol. Each
/// character is drawn among the 95 printable ones.
pub proof fn texts_have_the_length_drawn(
    config: InputGenConfig,
    depth: nat,
    s: RngState,
    before: Seq<char>,
    count: nat,
)
    ensures
        typed(SorobanValueType::String, depth, config, s).0 matches ValueModel::String(t)
            && t.len() == ranged_u64(s, 0, 64).0,
        typed(SorobanValueType::Symbol, depth, config, s).0 matches ValueModel::Symbol(t)
            && t.len() == ranged_u64(s, 1, 32).0,
        printable(before, count as int + 1, s).0[before.len() as int] == ranged_u8(
            s,
            32,
            126,
        ).0 as char,
{
    printable_grows(Seq::empty(), ranged_u64(s, 0, 64).0 as nat, ranged_u64(s, 0, 64).1);
    printable_grows(Seq::empty(), ranged_u64(s, 1, 32).0 as nat, ranged_u64(s, 1, 32).1);
    let d = ranged_u8(s, 32, 126);
    let more = before.push(d.0 as char);
    printable_grows(more, count, d.1);
    let out = printable(before, count as int + 1, s).0;
    assert(out == printable(more, count as int, d.1).0);
    assert(out.take(more.len() as int)[before.len() as int] == more[before.len() as int]);
}

proof fn items_grow(
    item: SorobanValueType,
    depth: nat,
    config: InputGenConfig,
    count: nat,
    before: Seq<ValueModel>,
    s: RngState,
)
    ensures
        typed_items(item, depth, config, count as int, before, s).0.len() == before.len() + count,
        typed_items(item, depth, config, count as int, before, s).0.take(before.len() as int)
            == before,
    decreases count,
{
    if count == 0 {
        assert(before.take(before.len() as int) =~= before);
    } else {
        let d = typed(item, depth, config, s);
        let more = before.push(d.0);
        items_grow(item, depth, config, (count - 1) as nat, more, d.1);
        let out = typed_items(item, depth, config, count as int, before, s).0;
        assert(out.take(before.len() as int) =~= out.take(more.len() as int).take(
            before.len() as int,
        ));
        assert(more.take(before.len() as int) =~= before);
    }
}

proof fn pairs_grow(
    key: Box<SorobanValueType>,
    value: Box<SorobanValueType>,
    depth: nat,
    config: InputGenConfig,
    count: nat,
    before: Seq<(ValueModel, ValueModel)>,
    s: RngState,
)
    ensures
        typed_pairs(
            SorobanValueType::Mapping(key, value),
            depth,
            config,
            count as int,
            before,
            s,
        ).0.len() == before.len() + count,
    decreases count,
{
    if count > 0 {
        let k = typed(*key, depth, config, s);
        let v = typed(*value, depth, config, k.1);
        pairs_grow(key, value, depth, config, (count - 1) as nat, before.push((k.0, v.0)), v.1);
    }
}

/// Lists and maps have the length drawn, up to the most that the settings allow; at
/// the maximum depth they are empty. The first item of a list is a value of the item
/// type, one level deeper.
pub proof fn collections_have_the_length_drawn(
    item: Box<SorobanValueType>,
    key: Box<SorobanValueType>,
    value: Box<SorobanValueType>,
    depth: nat,
    config: InputGenConfig,
    s: RngState,
)
    ensures
        typed(SorobanValueType::Vec(item), depth, config, s).0 matches ValueModel::Vec(items)
            && items.len() == (if depth < config.max_depth {
            ranged_u64(s, 0, config.max_vec_len as u64).0 as int
        } else {
            0
        }),
        typed(SorobanValueType::Mapping(key, value), depth, config, s).0 matches
            ValueModel::Mapping(pairs) && pairs.len() == (if depth < config.max_depth {
            ranged_u64(s, 0, config.max_map_size as u64).0 as int
        } else {
            0
        }),
        depth < config.max_depth && ranged_u64(s, 0, config.max_vec_len as u64).0 > 0 ==> (typed(
            SorobanValueType::Vec(item),
            depth,
            config,
            s,
        ).0 matches ValueModel::Vec(items) && items[0] == typed(
            *item,
            depth + 1,
            config,
            ranged_u64(s, 0, config.max_vec_len as u64).1,
        ).0),
{
    let d = ranged_u64(s, 0, config.max_vec_len as u64);
    let e = ranged_u64(s, 0, config.max_map_size as u64);
    items_grow(*item, depth + 1, config, d.0 as nat, Seq::empty(), d.1);
    pairs_grow(key, value, depth + 1, config, e.0 as nat, Seq::empty(), e.1);
    if d.0 > 0 {
        let first = typed(*item, depth + 1, config, d.1);
        let more = Seq::<ValueModel>::empty().push(first.0);
        items_grow(*item, depth + 1, config, (d.0 - 1) as nat, more, first.1);
        let out = typed_items(*item, depth + 1, config, d.0 as int, Seq::empty(), d.1).0;
        assert(out.take(1)[0] == more[0]);
    }
}

/// Arguments follow their schema: one each, under its name, generated one after the
/// other.
pub proof fn arguments_follow_the_schema(
    schema: Seq<(String, SorobanValueType)>,
    config: InputGenConfig,
    s: RngState,
    i: int,
)
    requires
        0 <= i < schema.len(),
    ensures
        generated_args(schema, config, s).0.len() == schema.len(),
        generated_args(schema, config, s).0[i] == (
            schema[i].0@,
            generated(schema[i].1, config, generated_args(schema.take(i), config, s).1).0,
        ),
    decreases schema.len(),
{
    let less = schema.drop_last();
    if i < schema.len() - 1 {
        arguments_follow_the_schema(less, config, s, i);
        assert(less.take(i) =~= schema.take(i));
    } else {
        assert(schema.take(i) =~= less);
        if less.len() > 0 {
            arguments_follow_the_schema(less, config, s, 0);
        }
    }
}

/// An address holds the key drawn, of 32 bytes: reading its digits gives the version,
/// the key and their checksum.
pub proof fn addresses_hold_the_key_drawn(config: InputGenConfig, depth: nat, s: RngState)
    requires
        filled(s, 32).0.len() == 32,
    ensures
        typed(SorobanValueType::Address, depth, config, s).1 == filled(s, 32).1,
        typed(SorobanValueType::Address, depth, config, s).0 matches ValueModel::Address(t)
            && t.len() == 56 && base32_bytes(t).subrange(1, 33) == filled(s, 32).0,
{
    addresses_are_valid(filled(s, 32).0);
}

}
