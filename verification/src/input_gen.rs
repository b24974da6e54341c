//! Generation of Soroban values.
//!
//! Values are drawn for a type: account addresses with valid checksums, symbols,
//! integers with a bias toward small and dangerous ones, bytes, texts, and lists,
//! maps and structures of these down to a maximum depth. A share of the values
//! is left out of this: they are random bytes, which no decoder should accept.
use crate::corpus::FRACTION_DRAWS;
use crate::rng::{
    between, chanced, drawn_bool, drawn_i128, drawn_u32, drawn_u64, drawn_u8, filled, picked,
    ranged_i128, ranged_u32, ranged_u8, seeded, FuzzRng, RngState,
};
use crate::strkey::{address_of, addresses_are_valid, encode_address, is_account_address};
use crate::text::append_chars;
pub use crate::values::{SorobanValue, SorobanValueType};
use crate::values::{field_models_of, models_of, pair_models_of, ValueModel};
use vstd::prelude::*;
use vstd::slice::*;

verus! {

/// Settings of the generator.
#[derive(Debug, Clone, Copy, PartialEq, Eq)]
pub struct InputGenConfig {
    /// How many of the equally likely draws of a fraction make a value
    /// well-typed.
    pub valid_draws: u64,
    /// Maximum depth of nested types.
    pub max_depth: usize,
    /// Maximum length of a list.
    pub max_vec_len: usize,
    /// Maximum size of a map.
    pub max_map_size: usize,
    /// Seed of the random source; without one the operating system seeds it.
    pub seed: Option<u64>,
}

impl Default for InputGenConfig {
    fn default() -> (config: Self)
        ensures
            config.valid_draws == 8106479329266893,
            config.max_depth == 4,
            config.max_vec_len == 50,
            config.max_map_size == 20,
            config.seed is None,
    {
        InputGenConfig {
            valid_draws: 8106479329266893,
            max_depth: 4,
            max_vec_len: 50,
            max_map_size: 20,
            seed: None,
        }
    }
}

/// By default nine in ten values are well-typed, to the nearest draw.
pub proof fn default_ratio_is_nine_tenths(config: InputGenConfig)
    requires
        config.valid_draws == 8106479329266893,
    ensures
        -10 < config.valid_draws * 10 - FRACTION_DRAWS * 9 < 10,
{
}

/// A text with `count` more printable characters, and the state after the draws.
pub open spec fn printable(text: Seq<char>, count: int, s: RngState) -> (Seq<char>, RngState)
    decreases count,
{
    if count <= 0 {
        (text, s)
    } else {
        let d = ranged_u8(s, 0x20, 0x7e);
        printable(text.push(d.0 as char), count - 1, d.1)
    }
}

/// All characters are printable.
pub open spec fn is_printable(text: Seq<char>) -> bool {
    forall|i: int| 0 <= i < text.len() ==> ' ' <= #[trigger] text[i] <= '~'
}

/// A text of random length, and the state after the draws. Where the bounds are
/// the same, the length is not drawn.
pub open spec fn printable_within(min: int, max: int, s: RngState) -> (Seq<char>, RngState) {
    if min == max {
        printable(Seq::empty(), min, s)
    } else {
        let d = between(s, min, max);
        printable(Seq::empty(), d.0, d.1)
    }
}

/// A symbol of one to 32 characters, and the state after the draws.
pub open spec fn drawn_symbol(s: RngState) -> (Seq<char>, RngState) {
    let d = between(s, 1, 32);
    printable(Seq::empty(), d.0, d.1)
}

/// An address of a random key, and the state after the draws.
pub open spec fn drawn_address(s: RngState) -> (Seq<char>, RngState) {
    let d = filled(s, 32);
    (address_of(d.0), d.1)
}

/// 128-bit integers at which programs tend to go wrong.
pub open spec fn edge_i128() -> Seq<i128> {
    seq![
        0i128,
        1,
        (-1) as i128,
        0x7fff_ffff_ffff_ffff_ffff_ffff_ffff_ffff,
        (-0x8000_0000_0000_0000_0000_0000_0000_0000) as i128,
        0x3fff_ffff_ffff_ffff_ffff_ffff_ffff_ffff,
        (-0x4000_0000_0000_0000_0000_0000_0000_0000) as i128,
        0x8000_0000_0000_0000,
        (-0x8000_0000_0000_0000) as i128,
        0x1_0000_0000_0000_0000,
        (-0x1_0000_0000_0000_0000) as i128,
        0x1_0000_0000_0000_0000_0000_0000,
        (-0x1_0000_0000_0000_0000_0000_0000) as i128,
        0x10_0000_0000_0000_0000_0000_0000,
        (-0x10_0000_0000_0000_0000_0000_0000) as i128,
        0x7fff_ffff_ffff_ffff_ffff_ffff_ffff_fffe,
        (-0x7fff_ffff_ffff_ffff_ffff_ffff_ffff_ffff) as i128,
        0xffff_ffff_ffff_ffff,
        0xffff_ffff,
        0x7fff_ffff_ffff_ffff,
        (-0x8000_0000_0000_0000) as i128,
    ]
}

/// 64-bit integers at which programs tend to go wrong.
pub open spec fn edge_u64() -> Seq<u64> {
    seq![
        0u64,
        1,
        0xffff_ffff_ffff_ffff,
        0xffff_ffff_ffff_fffe,
        0xffff_ffff,
        0x1_0000_0000,
        0x1_0000_0000,
        0x1_0000_0000_0000,
        0x1000_0000_0000_0000,
    ]
}

/// Draws below this, of all draws of a fraction, are three tenths of them.
pub const EDGE_DRAWS: u64 = 2702159776422298;

/// Draws below this, of all draws of a fraction, are seven tenths of them.
pub const SMALL_DRAWS: u64 = 6305039478318694;

/// Powers of two.
pub open spec fn power_of_two(exponent: nat) -> int
    decreases exponent,
{
    if exponent == 0 {
        1
    } else {
        2 * power_of_two((exponent - 1) as nat)
    }
}

/// A small integer, and the state after the draws: a random power of two up to
/// 512, less than as much again, and a sign; never beyond a thousand.
pub open spec fn drawn_small(s: RngState) -> (i128, RngState) {
    let d = ranged_u32(s, 0, 9);
    let base = power_of_two(d.0 as nat);
    let sign = chanced(d.1, 1, 2);
    let e = ranged_i128(
        sign.1,
        0,
        if base < 1001 - base {
            (base - 1) as i128
        } else {
            (1000 - base) as i128
        },
    );
    (if sign.0 {
        (base + e.0) as i128
    } else {
        (-(base + e.0)) as i128
    }, e.1)
}

/// A 128-bit integer, and the state after the draws: with a chance of three
/// tenths a dangerous one, of four tenths a small one, and otherwise any.
pub open spec fn drawn_wide(s: RngState) -> (i128, RngState) {
    let k = drawn_u64(s);
    if k.0 as int / 2048 < EDGE_DRAWS {
        let d = picked(k.1, 21);
        (edge_i128()[d.0], d.1)
    } else if k.0 as int / 2048 < SMALL_DRAWS {
        drawn_small(k.1)
    } else {
        drawn_i128(k.1)
    }
}

/// A 64-bit integer, and the state after the draws: with a chance of three
/// tenths a dangerous one, and otherwise any.
pub open spec fn drawn_long(s: RngState) -> (u64, RngState) {
    let c = chanced(s, 3, 10);
    if c.0 {
        let d = picked(c.1, 9);
        (edge_u64()[d.0], d.1)
    } else {
        drawn_u64(c.1)
    }
}

/// Bytes that are no value, and the state after the draws.
pub open spec fn drawn_invalid(s: RngState) -> (ValueModel, RngState) {
    let d = between(s, 1, 128);
    let e = filled(d.1, d.0 as nat);
    (ValueModel::InvalidBytes(e.0), e.1)
}

/// A value of a type at a depth, and the state after the draws.
pub open spec fn typed(
    ty: SorobanValueType,
    depth: nat,
    config: InputGenConfig,
    s: RngState,
) -> (ValueModel, RngState)
    decreases ty, 0x1_0000_0000_0000_0000int,
{
    match ty {
        SorobanValueType::Address => {
            let d = drawn_address(s);
            (ValueModel::Address(d.0), d.1)
        },
        SorobanValueType::Symbol => {
            let d = drawn_symbol(s);
            (ValueModel::Symbol(d.0), d.1)
        },
        SorobanValueType::I128 => {
            let d = drawn_wide(s);
            (ValueModel::I128(d.0), d.1)
        },
        SorobanValueType::U64 => {
            let d = drawn_long(s);
            (ValueModel::U64(d.0), d.1)
        },
        SorobanValueType::U32 => {
            let d = drawn_u32(s);
            (ValueModel::U32(d.0), d.1)
        },
        SorobanValueType::Bool => {
            let d = drawn_bool(s);
            (ValueModel::Bool(d.0), d.1)
        },
        SorobanValueType::Bytes => {
            let d = between(s, 0, 64);
            let e = filled(d.1, d.0 as nat);
            (ValueModel::Bytes(e.0), e.1)
        },
        SorobanValueType::BytesN(n) => {
            let d = filled(s, n as nat);
            (ValueModel::Bytes(d.0), d.1)
        },
        SorobanValueType::String => {
            let d = printable_within(0, 64, s);
            (ValueModel::String(d.0), d.1)
        },
        SorobanValueType::Vec(item) => if depth >= config.max_depth {
            (ValueModel::Vec(Seq::empty()), s)
        } else {
            let d = between(s, 0, config.max_vec_len as int);
            let e = typed_items(*item, depth + 1, config, d.0, Seq::empty(), d.1);
            (ValueModel::Vec(e.0), e.1)
        },
        SorobanValueType::Mapping(_, _) => if depth >= config.max_depth {
            (ValueModel::Mapping(Seq::empty()), s)
        } else {
            let d = between(s, 0, config.max_map_size as int);
            let e = typed_pairs(ty, depth + 1, config, d.0, Seq::empty(), d.1);
            (ValueModel::Mapping(e.0), e.1)
        },
        SorobanValueType::Struct(fields) => if depth >= config.max_depth {
            (ValueModel::Struct(Seq::empty()), s)
        } else {
            let e = typed_fields(fields@, depth + 1, config, s);
            (ValueModel::Struct(e.0), e.1)
        },
        SorobanValueType::Invalid => drawn_invalid(s),
    }
}

/// `count` more values of a type behind others, and the state after the draws.
pub open spec fn typed_items(
    item: SorobanValueType,
    depth: nat,
    config: InputGenConfig,
    count: int,
    before: Seq<ValueModel>,
    s: RngState,
) -> (Seq<ValueModel>, RngState)
    decreases item, 0x1_0000_0000_0000_0000 + count,
{
    if count <= 0 {
        (before, s)
    } else {
        let d = typed(item, depth, config, s);
        typed_items(item, depth, config, count - 1, before.push(d.0), d.1)
    }
}

/// `count` more pairs of a map type behind others, and the state after the
/// draws.
pub open spec fn typed_pairs(
    ty: SorobanValueType,
    depth: nat,
    config: InputGenConfig,
    count: int,
    before: Seq<(ValueModel, ValueModel)>,
    s: RngState,
) -> (Seq<(ValueModel, ValueModel)>, RngState)
    decreases ty, count,
{
    match ty {
        SorobanValueType::Mapping(key, value) => if count <= 0 {
            (before, s)
        } else {
            let k = typed(*key, depth, config, s);
            let v = typed(*value, depth, config, k.1);
            typed_pairs(ty, depth, config, count - 1, before.push((k.0, v.0)), v.1)
        },
        _ => (before, s),
    }
}

/// Values for named fields, and the state after the draws.
pub open spec fn typed_fields(
    fields: Seq<(String, SorobanValueType)>,
    depth: nat,
    config: InputGenConfig,
    s: RngState,
) -> (Seq<(Seq<char>, ValueModel)>, RngState)
    decreases fields, 0int,
{
    if fields.len() == 0 {
        (Seq::empty(), s)
    } else {
        let before = typed_fields(fields.drop_last(), depth, config, s);
        let last = fields[fields.len() - 1];
        let d = typed(last.1, depth, config, before.1);
        (before.0.push((last.0@, d.0)), d.1)
    }
}

/// A value for a type, well-typed or not, and the state after the draws.
pub open spec fn generated(ty: SorobanValueType, config: InputGenConfig, s: RngState) -> (
    ValueModel,
    RngState,
) {
    let k = drawn_u64(s);
    if k.0 as int / 2048 >= config.valid_draws {
        drawn_invalid(k.1)
    } else {
        typed(ty, 0, config, k.1)
    }
}

/// Values for a schema, and the state after the draws.
pub open spec fn generated_args(
    schema: Seq<(String, SorobanValueType)>,
    config: InputGenConfig,
    s: RngState,
) -> (Seq<(Seq<char>, ValueModel)>, RngState)
    decreases schema.len(),
{
    if schema.len() == 0 {
        (Seq::empty(), s)
    } else {
        let before = generated_args(schema.drop_last(), config, s);
        let last = schema.last();
        let d = generated(last.1, config, before.1);
        (before.0.push((last.0@, d.0)), d.1)
    }
}

/// The value has the type: addresses are valid, symbols and texts printable and
/// within their bounds, byte strings as long as they should be, lists and maps
/// no larger than the settings say, and all parts have theirs. At the maximum
/// depth lists, maps and structures are empty.
pub open spec fn fits(v: ValueModel, ty: SorobanValueType, depth: nat, config: InputGenConfig) -> bool
    decreases ty,
{
    match ty {
        SorobanValueType::Address => v matches ValueModel::Address(t) && is_account_address(t),
        SorobanValueType::Symbol => v matches ValueModel::Symbol(t) && 1 <= t.len() <= 32
            && is_printable(t),
        SorobanValueType::I128 => v is I128,
        SorobanValueType::U64 => v is U64,
        SorobanValueType::U32 => v is U32,
        SorobanValueType::Bool => v is Bool,
        SorobanValueType::Bytes => v matches ValueModel::Bytes(b) && b.len() <= 64,
        SorobanValueType::BytesN(n) => v matches ValueModel::Bytes(b) && b.len() == n,
        SorobanValueType::String => v matches ValueModel::String(t) && t.len() <= 64
            && is_printable(t),
        SorobanValueType::Vec(item) => v matches ValueModel::Vec(items) && items.len()
            <= config.max_vec_len && (depth >= config.max_depth ==> items.len() == 0) && forall|
            i: int,
        |
            0 <= i < items.len() ==> fits(#[trigger] items[i], *item, depth + 1, config),
        SorobanValueType::Mapping(key, value) => v matches ValueModel::Mapping(pairs) && pairs.len()
            <= config.max_map_size && (depth >= config.max_depth ==> pairs.len() == 0) && forall|
            i: int,
        |
            0 <= i < pairs.len() ==> fits((#[trigger] pairs[i]).0, *key, depth + 1, config) && fits(
                pairs[i].1,
                *value,
                depth + 1,
                config,
            ),
        SorobanValueType::Struct(fields) => v matches ValueModel::Struct(values) && (depth
            >= config.max_depth ==> values.len() == 0) && (depth < config.max_depth
            ==> values.len() == fields@.len() && forall|i: int|
            0 <= i < fields@.len() ==> (#[trigger] values[i]).0 == fields@[i].0@ && fits(
                values[i].1,
                fields@[i].1,
                depth + 1,
                config,
            )),
        SorobanValueType::Invalid => v matches ValueModel::InvalidBytes(b) && 1 <= b.len() <= 128,
    }
}

/// The value is bytes that are no value.
pub open spec fn is_noise(v: ValueModel) -> bool {
    v matches ValueModel::InvalidBytes(b) && 1 <= b.len() <= 128
}

/// How deeply lists, maps and structures are nested in a value; the innermost
/// empty ones count too.
pub open spec fn within_depth(v: ValueModel, levels: int) -> bool
    decreases v,
{
    match v {
        ValueModel::Vec(items) => levels >= 0 && forall|i: int|
            0 <= i < items.len() ==> within_depth(#[trigger] items[i], levels - 1),
        ValueModel::Mapping(pairs) => levels >= 0 && forall|i: int|
            0 <= i < pairs.len() ==> within_depth((#[trigger] pairs[i]).0, levels - 1)
                && within_depth(pairs[i].1, levels - 1),
        ValueModel::Struct(values) => levels >= 0 && forall|i: int|
            0 <= i < values.len() ==> within_depth((#[trigger] values[i]).1, levels - 1),
        _ => true,
    }
}

/// A value that fits its type is nested no deeper than the settings allow.
pub proof fn depth_is_respected(
    v: ValueModel,
    ty: SorobanValueType,
    depth: nat,
    config: InputGenConfig,
)
    requires
        depth <= config.max_depth,
        fits(v, ty, depth, config),
    ensures
        within_depth(v, config.max_depth - depth),
    decreases ty,
{
    match ty {
        SorobanValueType::Vec(item) => {
            let items = v->Vec_0;
            assert forall|i: int| 0 <= i < items.len() implies within_depth(
                #[trigger] items[i],
                config.max_depth - depth - 1,
            ) by {
                depth_is_respected(items[i], *item, depth + 1, config);
            }
        },
        SorobanValueType::Mapping(key, value) => {
            let pairs = v->Mapping_0;
            assert forall|i: int| 0 <= i < pairs.len() implies within_depth(
                (#[trigger] pairs[i]).0,
                config.max_depth - depth - 1,
            ) && within_depth(pairs[i].1, config.max_depth - depth - 1) by {
                depth_is_respected(pairs[i].0, *key, depth + 1, config);
                depth_is_respected(pairs[i].1, *value, depth + 1, config);
            }
        },
        SorobanValueType::Struct(fields) => {
            let values = v->Struct_0;
            assert forall|i: int| 0 <= i < values.len() implies within_depth(
                (#[trigger] values[i]).1,
                config.max_depth - depth - 1,
            ) by {
                assert(decreases_to!(ty => fields@));
                assert(decreases_to!(fields@ => fields@[i]));
                depth_is_respected(values[i].1, fields@[i].1, depth + 1, config);
            }
        },
        _ => {},
    }
}

/// What mutating some bytes in one of six ways gives.
pub open spec fn bytes_mutated(bytes: Seq<u8>, hint: u8, s: RngState) -> (Seq<u8>, RngState) {
    let len = bytes.len() as int;
    if len == 0 {
        let d = drawn_u8(s);
        (bytes.push(d.0), d.1)
    } else if hint % 6 == 0 {
        // Flip a bit.
        let d = picked(s, len);
        let e = ranged_u8(d.1, 0, 7);
        (bytes.update(d.0, bytes[d.0] ^ (1u8 << e.0)), e.1)
    } else if hint % 6 == 1 {
        // Clear or fill a byte.
        let d = picked(s, len);
        let e = chanced(d.1, 1, 2);
        (bytes.update(d.0, if e.0 {
            0
        } else {
            0xff
        }), e.1)
    } else if hint % 6 == 2 {
        // Add a small number to a byte.
        let d = picked(s, len);
        let e = ranged_u8(d.1, 1, 35);
        (bytes.update(d.0, ((bytes[d.0] + e.0) % 256) as u8), e.1)
    } else if hint % 6 == 3 {
        // Insert a byte.
        let d = between(s, 0, len);
        let e = drawn_u8(d.1);
        (bytes.insert(d.0, e.0), e.1)
    } else if hint % 6 == 4 {
        // Delete a byte, unless it is the only one.
        if len > 1 {
            let d = picked(s, len);
            (bytes.remove(d.0), d.1)
        } else {
            (bytes, s)
        }
    } else {
        // Duplicate up to eight bytes.
        let d = picked(s, len);
        let e = between(d.1, 1, 8);
        let end = if d.0 + e.0 < len {
            d.0 + e.0
        } else {
            len
        };
        let f = between(e.1, 0, len);
        (bytes.take(f.0) + bytes.subrange(d.0, end) + bytes.skip(f.0), f.1)
    }
}

/// The bytes with a bit of one flipped.
pub open spec fn bit_toggled(bytes: Seq<u8>, place: int, bit: u8) -> Seq<u8> {
    bytes.update(place, bytes[place] ^ (1u8 << bit))
}

/// The bytes with a small number added to one, modulo 256.
pub open spec fn byte_raised(bytes: Seq<u8>, place: int, delta: u8) -> Seq<u8> {
    bytes.update(place, ((bytes[place] + delta) % 256) as u8)
}

/// The bytes with some of them repeated at a place.
pub open spec fn run_repeated(bytes: Seq<u8>, from: int, end: int, place: int) -> Seq<u8> {
    bytes.take(place) + bytes.subrange(from, end) + bytes.skip(place)
}

/// What mutating some bytes in one of six ways does to them, whatever is drawn.
pub open spec fn bytes_variant(bytes: Seq<u8>, hint: u8, out: Seq<u8>) -> bool {
    let len = bytes.len() as int;
    if len == 0 {
        out.len() == 1
    } else if hint % 6 == 0 {
        exists|place: int, bit: u8|
            0 <= place < len && bit < 8 && out == #[trigger] bit_toggled(bytes, place, bit)
    } else if hint % 6 == 1 {
        exists|place: int, byte: u8|
            0 <= place < len && (byte == 0 || byte == 0xff) && out == #[trigger] bytes.update(
                place,
                byte,
            )
    } else if hint % 6 == 2 {
        exists|place: int, delta: u8|
            0 <= place < len && 1 <= delta <= 35 && out == #[trigger] byte_raised(
                bytes,
                place,
                delta,
            )
    } else if hint % 6 == 3 {
        exists|place: int, byte: u8|
            0 <= place <= len && out == #[trigger] bytes.insert(place, byte)
    } else if hint % 6 == 4 {
        if len == 1 {
            out == bytes
        } else {
            exists|place: int| 0 <= place < len && out == #[trigger] bytes.remove(place)
        }
    } else {
        exists|from: int, end: int, place: int|
            0 <= from < end <= len && end - from <= 8 && 0 <= place <= len && out
                == #[trigger] run_repeated(bytes, from, end, place)
    }
}

/// The generator of Soroban values.
pub struct SorobanInputGen {
    /// The random source.
    pub rng: FuzzRng,
    /// Settings.
    pub config: InputGenConfig,
}

impl SorobanInputGen {
    /// A generator. With a seed in its settings, its values are replayed by the
    /// same seed.
    pub fn new(config: InputGenConfig) -> (generator: Self)
        ensures
            generator.config == config,
            config.seed matches Some(s) ==> generator.rng@ == seeded(s),
    {
        SorobanInputGen { rng: FuzzRng::new(config.seed), config }
    }

    /// Draws a value for a type: one of the type, or with some chance bytes that
    /// are no value.
    pub fn generate(&mut self, ty: &SorobanValueType) -> (value: SorobanValue)
        ensures
            final(self).config == old(self).config,
            (value@, final(self).rng@) == generated(*ty, old(self).config, old(self).rng@),
            fits(value@, *ty, 0, old(self).config) || is_noise(value@),
            old(self).config.valid_draws >= FRACTION_DRAWS ==> fits(
                value@,
                *ty,
                0,
                old(self).config,
            ),
            old(self).config.valid_draws == 0 ==> is_noise(value@),
    {
        let draw: u64 = self.rng.any_u64() / 2048;
        if draw >= self.config.valid_draws {
            return self.generate_invalid();
        }
        self.generate_typed(ty, 0)
    }

    /// Draws a value for each argument of a schema.
    pub fn generate_args(&mut self, schema: &[(String, SorobanValueType)]) -> (args: Vec<
        (String, SorobanValue),
    >)
        ensures
            final(self).config == old(self).config,
            (field_models_of(args@), final(self).rng@) == generated_args(
                schema@,
                old(self).config,
                old(self).rng@,
            ),
            args@.len() == schema@.len(),
            forall|i: int|
                0 <= i < args@.len() ==> (#[trigger] args@[i]).0@ == schema@[i].0@ && (fits(
                    args@[i].1@,
                    schema@[i].1,
                    0,
                    old(self).config,
                ) || is_noise(args@[i].1@)),
    {
        let mut args: Vec<(String, SorobanValue)> = Vec::new();
        let mut i: usize = 0;
        let ghost start = self.rng@;
        while i < schema.len()
            invariant
                self.config == old(self).config,
                i <= schema@.len(),
                args@.len() == i,
                (field_models_of(args@), self.rng@) == generated_args(
                    schema@.take(i as int),
                    self.config,
                    start,
                ),
                forall|k: int|
                    0 <= k < i ==> (#[trigger] args@[k]).0@ == schema@[k].0@ && (fits(
                        args@[k].1@,
                        schema@[k].1,
                        0,
                        self.config,
                    ) || is_noise(args@[k].1@)),
            decreases schema@.len() - i,
        {
            let name: String = schema[i].0.clone();
            let value: SorobanValue = self.generate(&schema[i].1);
            let ghost before = args@;
            args.push((name, value));
            proof {
                assert(schema@.take(i + 1).drop_last() =~= schema@.take(i as int));
                assert(args@.drop_last() =~= before);
            }
            i = i + 1;
        }
        assert(schema@.take(i as int) =~= schema@);
        args
    }

    /// Draws a value of a type at a depth.
    pub fn generate_typed(&mut self, ty: &SorobanValueType, depth: usize) -> (value: SorobanValue)
        ensures
            final(self).config == old(self).config,
            (value@, final(self).rng@) == typed(
                *ty,
                depth as nat,
                old(self).config,
                old(self).rng@,
            ),
            fits(value@, *ty, depth as nat, old(self).config),
        decreases ty,
    {
        match ty {
            SorobanValueType::Address => SorobanValue::Address(self.gen_stellar_address()),
            SorobanValueType::Symbol => SorobanValue::Symbol(self.gen_symbol()),
            SorobanValueType::I128 => SorobanValue::I128(self.gen_i128()),
            SorobanValueType::U64 => SorobanValue::U64(self.gen_u64()),
            SorobanValueType::U32 => SorobanValue::U32(self.rng.any_u32()),
            SorobanValueType::Bool => SorobanValue::Bool(self.rng.any_bool()),
            SorobanValueType::Bytes => {
                let len: usize = self.rng.range(0, 64);
                SorobanValue::Bytes(self.rng.bytes(len))
            },
            SorobanValueType::BytesN(n) => SorobanValue::Bytes(self.rng.bytes(*n)),
            SorobanValueType::String => SorobanValue::String(self.gen_ascii_string(0, 64)),
            SorobanValueType::Vec(item) => {
                if depth >= self.config.max_depth {
                    let none: Vec<SorobanValue> = Vec::new();
                    return SorobanValue::Vec(none);
                }
                let len: usize = self.rng.range(0, self.config.max_vec_len);
                let ghost start = self.rng@;
                let mut items: Vec<SorobanValue> = Vec::new();
                let mut i: usize = 0;
                while i < len
                    invariant
                        self.config == old(self).config,
                        depth < self.config.max_depth,
                        i <= len,
                        items@.len() == i,
                        decreases_to!(ty => **item),
                        models_of(items@).len() == i,
                        typed_items(
                            **item,
                            (depth + 1) as nat,
                            self.config,
                            len - i,
                            models_of(items@),
                            self.rng@,
                        ) == typed_items(
                            **item,
                            (depth + 1) as nat,
                            self.config,
                            len as int,
                            Seq::empty(),
                            start,
                        ),
                        forall|k: int|
                            0 <= k < i ==> fits(
                                #[trigger] models_of(items@)[k],
                                **item,
                                (depth + 1) as nat,
                                self.config,
                            ),
                    decreases len - i,
                {
                    let ghost before = items@;
                    let value: SorobanValue = self.generate_typed(item, depth + 1);
                    items.push(value);
                    assert(items@.drop_last() =~= before);
                    assert(models_of(items@) =~= models_of(before).push(value@));
                    i = i + 1;
                }
                SorobanValue::Vec(items)
            },
            SorobanValueType::Mapping(key, value) => {
                if depth >= self.config.max_depth {
                    let none: Vec<(SorobanValue, SorobanValue)> = Vec::new();
                    return SorobanValue::Mapping(none);
                }
                let len: usize = self.rng.range(0, self.config.max_map_size);
                let ghost start = self.rng@;
                let mut pairs: Vec<(SorobanValue, SorobanValue)> = Vec::new();
                let mut i: usize = 0;
                while i < len
                    invariant
                        self.config == old(self).config,
                        *ty == SorobanValueType::Mapping(*key, *value),
                        depth < self.config.max_depth,
                        i <= len,
                        pairs@.len() == i,
                        decreases_to!(ty => **key),
                        decreases_to!(ty => **value),
                        pair_models_of(pairs@).len() == i,
                        typed_pairs(
                            *ty,
                            (depth + 1) as nat,
                            self.config,
                            len - i,
                            pair_models_of(pairs@),
                            self.rng@,
                        ) == typed_pairs(
                            *ty,
                            (depth + 1) as nat,
                            self.config,
                            len as int,
                            Seq::empty(),
                            start,
                        ),
                        forall|k: int|
                            0 <= k < i ==> fits(
                                (#[trigger] pair_models_of(pairs@)[k]).0,
                                **key,
                                (depth + 1) as nat,
                                self.config,
                            ) && fits(
                                pair_models_of(pairs@)[k].1,
                                **value,
                                (depth + 1) as nat,
                                self.config,
                            ),
                    decreases len - i,
                {
                    let ghost before = pairs@;
                    let k: SorobanValue = self.generate_typed(key, depth + 1);
                    let v: SorobanValue = self.generate_typed(value, depth + 1);
                    pairs.push((k, v));
                    assert(pairs@.drop_last() =~= before);
                    assert(pair_models_of(pairs@) =~= pair_models_of(before).push((k@, v@)));
                    i = i + 1;
                }
                SorobanValue::Mapping(pairs)
            },
            SorobanValueType::Struct(fields) => {
                if depth >= self.config.max_depth {
                    let none: Vec<(String, SorobanValue)> = Vec::new();
                    return SorobanValue::Struct(none);
                }
                assert(decreases_to!(ty => ty->Struct_0));
                assert(decreases_to!(fields => fields@));
                let ghost start = self.rng@;
                let mut values: Vec<(String, SorobanValue)> = Vec::new();
                let mut i: usize = 0;
                while i < fields.len()
                    invariant
                        self.config == old(self).config,
                        depth < self.config.max_depth,
                        i <= fields@.len(),
                        values@.len() == i,
                        decreases_to!(ty => fields@),
                        field_models_of(values@).len() == i,
                        (field_models_of(values@), self.rng@) == typed_fields(
                            fields@.take(i as int),
                            (depth + 1) as nat,
                            self.config,
                            start,
                        ),
                        forall|k: int|
                            0 <= k < i ==> (#[trigger] field_models_of(values@)[k]).0
                                == fields@[k].0@ && fits(
                                field_models_of(values@)[k].1,
                                fields@[k].1,
                                (depth + 1) as nat,
                                self.config,
                            ),
                    decreases fields@.len() - i,
                {
                    let ghost before = values@;
                    assert(decreases_to!(fields@ => fields@[i as int]));
                    let name: String = fields[i].0.clone();
                    let value: SorobanValue = self.generate_typed(&fields[i].1, depth + 1);
                    values.push((name, value));
                    proof {
                        assert(fields@.take(i + 1).drop_last() =~= fields@.take(i as int));
                        assert(values@.drop_last() =~= before);
                        assert(field_models_of(values@) =~= field_models_of(before).push(
                            (name@, value@),
                        ));
                    }
                    i = i + 1;
                }
                assert(fields@.take(i as int) =~= fields@);
                SorobanValue::Struct(values)
            },
            SorobanValueType::Invalid => self.generate_invalid(),
        }
    }

    /// Draws bytes that are no value.
    pub fn generate_invalid(&mut self) -> (value: SorobanValue)
        ensures
            final(self).config == old(self).config,
            (value@, final(self).rng@) == drawn_invalid(old(self).rng@),
            is_noise(value@),
    {
        let len: usize = self.rng.range(1, 128);
        SorobanValue::InvalidBytes(self.rng.bytes(len))
    }

    /// Draws a valid account address.
    pub fn gen_stellar_address(&mut self) -> (address: String)
        ensures
            final(self).config == old(self).config,
            (address@, final(self).rng@) == drawn_address(old(self).rng@),
            is_account_address(address@),
            address@[0] == 'G',
    {
        let key: Vec<u8> = self.rng.bytes(32);
        proof {
            addresses_are_valid(key@);
        }
        encode_address(key.as_slice())
    }

    /// Draws a symbol of one to 32 printable characters.
    pub fn gen_symbol(&mut self) -> (symbol: String)
        ensures
            final(self).config == old(self).config,
            (symbol@, final(self).rng@) == drawn_symbol(old(self).rng@),
            1 <= symbol@.len() <= 32,
            is_printable(symbol@),
    {
        let len: usize = self.rng.range(1, 32);
        self.gen_ascii_string(len, len)
    }

    /// Draws a 128-bit integer with a bias toward dangerous and small ones.
    pub fn gen_i128(&mut self) -> (value: i128)
        ensures
            final(self).config == old(self).config,
            (value, final(self).rng@) == drawn_wide(old(self).rng@),
            ({
                let k = drawn_u64(old(self).rng@).0 as int / 2048;
                &&& k < EDGE_DRAWS ==> edge_i128().contains(value)
                &&& EDGE_DRAWS <= k < SMALL_DRAWS ==> -1000 <= value <= 1000
            }),
    {
        let draw: u64 = self.rng.any_u64() / 2048;
        if draw < EDGE_DRAWS {
            let list: [i128; 21] = [
                0,
                1,
                -1,
                i128::MAX,
                i128::MIN,
                0x3fff_ffff_ffff_ffff_ffff_ffff_ffff_ffff,
                -0x4000_0000_0000_0000_0000_0000_0000_0000,
                0x8000_0000_0000_0000,
                -0x8000_0000_0000_0000,
                0x1_0000_0000_0000_0000,
                -0x1_0000_0000_0000_0000,
                0x1_0000_0000_0000_0000_0000_0000,
                -0x1_0000_0000_0000_0000_0000_0000,
                0x10_0000_0000_0000_0000_0000_0000,
                -0x10_0000_0000_0000_0000_0000_0000,
                0x7fff_ffff_ffff_ffff_ffff_ffff_ffff_fffe,
                -0x7fff_ffff_ffff_ffff_ffff_ffff_ffff_ffff,
                0xffff_ffff_ffff_ffff,
                0xffff_ffff,
                0x7fff_ffff_ffff_ffff,
                -0x8000_0000_0000_0000,
            ];
            assert(list@ =~= edge_i128());
            let choice: usize = self.rng.below(21);
            assert(edge_i128()[choice as int] == list[choice as int]);
            list[choice]
        } else if draw < SMALL_DRAWS {
            self.gen_small()
        } else {
            self.rng.any_i128()
        }
    }

    /// Draws a small integer.
    fn gen_small(&mut self) -> (value: i128)
        ensures
            final(self).config == old(self).config,
            (value, final(self).rng@) == drawn_small(old(self).rng@),
            -1000 <= value <= 1000,
    {
        let exponent: u32 = self.rng.range_u32(0, 9);
        let mut base: i128 = 1;
        let mut i: u32 = 0;
        while i < exponent
            invariant
                i <= exponent <= 9,
                base == power_of_two(i as nat),
                1 <= base,
                i == 0 ==> base <= 1,
                i == 1 ==> base <= 2,
                i == 2 ==> base <= 4,
                i == 3 ==> base <= 8,
                i == 4 ==> base <= 16,
                i == 5 ==> base <= 32,
                i == 6 ==> base <= 64,
                i == 7 ==> base <= 128,
                i == 8 ==> base <= 256,
                i == 9 ==> base <= 512,
            decreases exponent - i,
        {
            base = base * 2;
            i = i + 1;
        }
        let positive: bool = self.rng.chance(1, 2);
        let high: i128 = if base < 1001 - base {
            base - 1
        } else {
            1000 - base
        };
        let offset: i128 = self.rng.range_i128(0, high);
        if positive {
            base + offset
        } else {
            -(base + offset)
        }
    }

    /// Draws a 64-bit integer with a bias toward dangerous ones.
    pub fn gen_u64(&mut self) -> (value: u64)
        ensures
            final(self).config == old(self).config,
            (value, final(self).rng@) == drawn_long(old(self).rng@),
            chanced(old(self).rng@, 3, 10).0 ==> edge_u64().contains(value),
    {
        let list: [u64; 9] = [
            0,
            1,
            u64::MAX,
            0xffff_ffff_ffff_fffe,
            0xffff_ffff,
            0x1_0000_0000,
            0x1_0000_0000,
            0x1_0000_0000_0000,
            0x1000_0000_0000_0000,
        ];
        assert(list@ =~= edge_u64());
        if self.rng.chance(3, 10) {
            let choice: usize = self.rng.below(9);
            assert(edge_u64()[choice as int] == list[choice as int]);
            list[choice]
        } else {
            self.rng.any_u64()
        }
    }

    /// Draws a printable text with a length from `min` to `max`.
    pub fn gen_ascii_string(&mut self, min: usize, max: usize) -> (text: String)
        requires
            min <= max,
        ensures
            final(self).config == old(self).config,
            (text@, final(self).rng@) == printable_within(
                min as int,
                max as int,
                old(self).rng@,
            ),
            min <= text@.len() <= max,
            is_printable(text@),
    {
        let len: usize = if min == max {
            min
        } else {
            self.rng.range(min, max)
        };
        let ghost start = self.rng@;
        let mut chars: Vec<char> = Vec::new();
        let mut i: usize = 0;
        while i < len
            invariant
                self.config == old(self).config,
                i <= len,
                chars@.len() == i,
                is_printable(chars@),
                printable(chars@, len - i, self.rng@) == printable(
                    Seq::empty(),
                    len as int,
                    start,
                ),
            decreases len - i,
        {
            let c: u8 = self.rng.range_u8(0x20, 0x7e);
            chars.push(c as char);
            i = i + 1;
        }
        let mut text: String = String::new();
        append_chars(&mut text, chars.as_slice());
        assert(text@ =~= chars@);
        text
    }

    /// Mutates some bytes in one of six ways, which `strategy_hint` picks; empty
    /// ones get a random byte.
    pub fn mutate_bytes(&mut self, bytes: &mut Vec<u8>, strategy_hint: u8)
        ensures
            final(self).config == old(self).config,
            (final(bytes)@, final(self).rng@) == bytes_mutated(
                old(bytes)@,
                strategy_hint,
                old(self).rng@,
            ),
            bytes_variant(old(bytes)@, strategy_hint, final(bytes)@),
            final(bytes)@.len() > 0,
            old(bytes)@.len() > 0 && strategy_hint % 6 == 0 ==> final(bytes)@ != old(bytes)@,
    {
        if bytes.len() == 0 {
            let byte: u8 = self.rng.any_u8();
            bytes.push(byte);
            return;
        }
        let hint: u8 = strategy_hint % 6;
        if hint == 0 {
            let place: usize = self.rng.below(bytes.len());
            let bit: u8 = self.rng.range_u8(0, 7);
            let byte: u8 = bytes[place];
            let flipped: u8 = byte ^ (1u8 << bit);
            assert(bit < 8 ==> byte ^ (1u8 << bit) != byte) by (bit_vector);
            bytes.set(place, flipped);
            assert(bytes@[place as int] != old(bytes)@[place as int]);
            assert(bytes@ == bit_toggled(old(bytes)@, place as int, bit));
        } else if hint == 1 {
            let place: usize = self.rng.below(bytes.len());
            let clear: bool = self.rng.chance(1, 2);
            bytes.set(place, if clear {
                0
            } else {
                0xff
            });
        } else if hint == 2 {
            let place: usize = self.rng.below(bytes.len());
            let delta: u8 = self.rng.range_u8(1, 35);
            let byte: u8 = bytes[place].wrapping_add(delta);
            bytes.set(place, byte);
            assert(bytes@ == byte_raised(old(bytes)@, place as int, delta));
        } else if hint == 3 {
            let place: usize = self.rng.range(0, bytes.len());
            let byte: u8 = self.rng.any_u8();
            bytes.insert(place, byte);
        } else if hint == 4 {
            if bytes.len() > 1 {
                let place: usize = self.rng.below(bytes.len());
                bytes.remove(place);
            }
        } else {
            let start: usize = self.rng.below(bytes.len());
            let count: usize = self.rng.range(1, 8);
            let end: usize = if count < bytes.len() - start {
                start + count
            } else {
                bytes.len()
            };
            let place: usize = self.rng.range(0, bytes.len());
            let mut out: Vec<u8> = slice_to_vec(slice_subrange(bytes.as_slice(), 0, place));
            out.extend_from_slice(slice_subrange(bytes.as_slice(), start, end));
            out.extend_from_slice(slice_subrange(bytes.as_slice(), place, bytes.len()));
            assert(out@ =~= bytes@.take(place as int) + bytes@.subrange(start as int, end as int)
                + bytes@.skip(place as int));
            *bytes = out;
            assert(bytes@ == run_repeated(
                old(bytes)@,
                start as int,
                end as int,
                place as int,
            ));
        }
    }
}

/// Replay: with a seed, the values that a generator draws depend on the seed,
/// its settings and the types alone.
pub proof fn seed_replays_values(
    a: SorobanInputGen,
    b: SorobanInputGen,
    seed: u64,
    schema: Seq<(String, SorobanValueType)>,
)
    requires
        a.config == b.config,
        a.rng@ == seeded(seed),
        b.rng@ == seeded(seed),
    ensures
        generated_args(schema, a.config, a.rng@) == generated_args(schema, b.config, b.rng@),
        forall|ty: SorobanValueType| #[trigger]
            generated(ty, a.config, a.rng@) == generated(ty, b.config, b.rng@),
{
}

}
