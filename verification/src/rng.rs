//! The random source of the fuzzer.
//!
//! [`FuzzRng`] holds a ChaCha8 generator of `rand_chacha`. What such a generator
//! yields is fixed by its seed, its stream and how many words it has handed out,
//! so these are its view and every draw is a function of them: the same seed
//! replays the same session.
use rand::{Rng, SeedableRng};
use rand_chacha::ChaCha8Rng;
use vstd::prelude::*;

verus! {

/// `rand_chacha::ChaCha8Rng`, carried as an opaque value.
#[verifier::external_type_specification]
#[verifier::external_body]
pub struct ExChaCha8Rng(ChaCha8Rng);

/// Seed bytes, stream and word position of a generator.
pub type RngState = (Seq<u8>, u64, nat);

/// The seed, stream and word position of a generator, as `ChaCha8Rng::get_seed`,
/// `ChaCha8Rng::get_stream` and `ChaCha8Rng::get_word_pos` report them. The crate
/// compares two generators by these values: they determine the outputs of every
/// later call.
pub uninterp spec fn keystream(rng: ChaCha8Rng) -> RngState;

/// The state of a generator made by `ChaCha8Rng::seed_from_u64`.
pub uninterp spec fn seeded(seed: u64) -> RngState;

/// The byte that `Rng::gen::<u8>` draws, and the state after it.
pub uninterp spec fn drawn_u8(s: RngState) -> (u8, RngState);

/// The word that `Rng::gen::<u32>` draws, and the state after it.
pub uninterp spec fn drawn_u32(s: RngState) -> (u32, RngState);

/// The word that `Rng::gen::<u64>` draws, and the state after it.
pub uninterp spec fn drawn_u64(s: RngState) -> (u64, RngState);

/// The flag that `Rng::gen::<bool>` draws, and the state after it.
pub uninterp spec fn drawn_bool(s: RngState) -> (bool, RngState);

/// The integer that `Rng::gen::<i128>` draws, and the state after it.
pub uninterp spec fn drawn_i128(s: RngState) -> (i128, RngState);

/// The byte that `Rng::gen_range(low..=high)` draws, and the state after it.
pub uninterp spec fn ranged_u8(s: RngState, low: u8, high: u8) -> (u8, RngState);

/// The word that `Rng::gen_range(low..=high)` draws, and the state after it.
pub uninterp spec fn ranged_u32(s: RngState, low: u32, high: u32) -> (u32, RngState);

/// The word that `Rng::gen_range(low..=high)` draws, and the state after it.
pub uninterp spec fn ranged_u64(s: RngState, low: u64, high: u64) -> (u64, RngState);

/// The integer that `Rng::gen_range(low..=high)` draws, and the state after it.
pub uninterp spec fn ranged_i128(s: RngState, low: i128, high: i128) -> (i128, RngState);

/// The flag that `Rng::gen_ratio(numerator, denominator)` draws, and the state
/// after it.
pub uninterp spec fn chanced(s: RngState, numerator: u32, denominator: u32) -> (bool, RngState);

/// The bytes that `Rng::fill` writes into a slice of `count` bytes, and the
/// state after it.
pub uninterp spec fn filled(s: RngState, count: nat) -> (Seq<u8>, RngState);

/// `SeedableRng::seed_from_u64`: the generator's state depends on the seed alone.
#[verifier::external_body]
fn seed_chacha(seed: u64) -> (rng: ChaCha8Rng)
    ensures
        keystream(rng) == seeded(seed),
{
    ChaCha8Rng::seed_from_u64(seed)
}

/// `SeedableRng::from_entropy`: a generator seeded by the operating system, of
/// which nothing is known beforehand.
#[verifier::external_body]
fn entropy_chacha() -> (rng: ChaCha8Rng) {
    ChaCha8Rng::from_entropy()
}

/// `Rng::gen` at `u8`: one byte, fixed by the state.
#[verifier::external_body]
fn draw_u8(rng: &mut ChaCha8Rng) -> (value: u8)
    ensures
        (value, keystream(*final(rng))) == drawn_u8(keystream(*old(rng))),
{
    rng.gen::<u8>()
}

/// `Rng::gen` at `u32`: one word, fixed by the state.
#[verifier::external_body]
fn draw_u32(rng: &mut ChaCha8Rng) -> (value: u32)
    ensures
        (value, keystream(*final(rng))) == drawn_u32(keystream(*old(rng))),
{
    rng.gen::<u32>()
}

/// `Rng::gen` at `u64`: one word, fixed by the state.
#[verifier::external_body]
fn draw_u64(rng: &mut ChaCha8Rng) -> (value: u64)
    ensures
        (value, keystream(*final(rng))) == drawn_u64(keystream(*old(rng))),
{
    rng.gen::<u64>()
}

/// `Rng::gen` at `bool`: one flag, fixed by the state.
#[verifier::external_body]
fn draw_bool(rng: &mut ChaCha8Rng) -> (value: bool)
    ensures
        (value, keystream(*final(rng))) == drawn_bool(keystream(*old(rng))),
{
    rng.gen::<bool>()
}

/// `Rng::gen` at `i128`: one integer, fixed by the state.
#[verifier::external_body]
fn draw_i128(rng: &mut ChaCha8Rng) -> (value: i128)
    ensures
        (value, keystream(*final(rng))) == drawn_i128(keystream(*old(rng))),
{
    rng.gen::<i128>()
}

/// `Rng::gen_range` at `u8`: a byte within the inclusive range, fixed by the
/// state and the range. The call panics on an empty range.
#[verifier::external_body]
fn draw_range_u8(rng: &mut ChaCha8Rng, low: u8, high: u8) -> (value: u8)
    requires
        low <= high,
    ensures
        low <= value <= high,
        (value, keystream(*final(rng))) == ranged_u8(keystream(*old(rng)), low, high),
{
    rng.gen_range(low..=high)
}

/// `Rng::gen_range` at `u32`: a word within the inclusive range, fixed by the
/// state and the range. The call panics on an empty range.
#[verifier::external_body]
fn draw_range_u32(rng: &mut ChaCha8Rng, low: u32, high: u32) -> (value: u32)
    requires
        low <= high,
    ensures
        low <= value <= high,
        (value, keystream(*final(rng))) == ranged_u32(keystream(*old(rng)), low, high),
{
    rng.gen_range(low..=high)
}

/// `Rng::gen_range` at `u64`: a word within the inclusive range, fixed by the
/// state and the range. The call panics on an empty range.
#[verifier::external_body]
fn draw_range_u64(rng: &mut ChaCha8Rng, low: u64, high: u64) -> (value: u64)
    requires
        low <= high,
    ensures
        low <= value <= high,
        (value, keystream(*final(rng))) == ranged_u64(keystream(*old(rng)), low, high),
{
    rng.gen_range(low..=high)
}

/// `Rng::gen_range` at `i128`: an integer within the inclusive range, fixed by
/// the state and the range. The call panics on an empty range.
#[verifier::external_body]
fn draw_range_i128(rng: &mut ChaCha8Rng, low: i128, high: i128) -> (value: i128)
    requires
        low <= high,
    ensures
        low <= value <= high,
        (value, keystream(*final(rng))) == ranged_i128(keystream(*old(rng)), low, high),
{
    rng.gen_range(low..=high)
}

/// `Rng::gen_ratio`: true with the given chance, fixed by the state and the
/// ratio; never true at a chance of zero, always true at a chance of one. The
/// call panics on a zero denominator or a ratio above one.
#[verifier::external_body]
fn draw_ratio(rng: &mut ChaCha8Rng, numerator: u32, denominator: u32) -> (value: bool)
    requires
        0 < denominator,
        numerator <= denominator,
    ensures
        numerator == 0 ==> !value,
        numerator == denominator ==> value,
        (value, keystream(*final(rng))) == chanced(
            keystream(*old(rng)),
            numerator,
            denominator,
        ),
{
    rng.gen_ratio(numerator, denominator)
}

/// `Rng::fill` on bytes: overwrites every byte of the vector and keeps its
/// length; the bytes are fixed by the state and the length.
#[verifier::external_body]
fn draw_fill(rng: &mut ChaCha8Rng, bytes: &mut Vec<u8>)
    ensures
        final(bytes)@.len() == old(bytes)@.len(),
        (final(bytes)@, keystream(*final(rng))) == filled(
            keystream(*old(rng)),
            old(bytes)@.len(),
        ),
{
    rng.fill(bytes.as_mut_slice())
}

/// An index below `count`, and the state after the draw.
pub open spec fn picked(s: RngState, count: int) -> (int, RngState) {
    between(s, 0, count - 1)
}

/// A size within `low..=high`, and the state after the draw.
pub open spec fn between(s: RngState, low: int, high: int) -> (int, RngState) {
    let d = ranged_u64(s, low as u64, high as u64);
    (d.0 as int, d.1)
}

/// The random source: a ChaCha8 generator.
pub struct FuzzRng {
    inner: ChaCha8Rng,
}

impl View for FuzzRng {
    type V = RngState;

    closed spec fn view(&self) -> RngState {
        keystream(self.inner)
    }
}

impl FuzzRng {
    /// A generator whose draws are replayed by the same seed.
    pub fn from_seed(seed: u64) -> (rng: Self)
        ensures
            rng@ == seeded(seed),
    {
        FuzzRng { inner: seed_chacha(seed) }
    }

    /// A generator seeded with `seed`, or by the operating system without one.
    pub fn new(seed: Option<u64>) -> (rng: Self)
        ensures
            seed matches Some(s) ==> rng@ == seeded(s),
    {
        match seed {
            Some(s) => FuzzRng::from_seed(s),
            None => FuzzRng { inner: entropy_chacha() },
        }
    }

    /// Any byte.
    pub fn any_u8(&mut self) -> (value: u8)
        ensures
            (value, final(self)@) == drawn_u8(old(self)@),
    {
        draw_u8(&mut self.inner)
    }

    /// Any 32-bit word.
    pub fn any_u32(&mut self) -> (value: u32)
        ensures
            (value, final(self)@) == drawn_u32(old(self)@),
    {
        draw_u32(&mut self.inner)
    }

    /// Any 64-bit word.
    pub fn any_u64(&mut self) -> (value: u64)
        ensures
            (value, final(self)@) == drawn_u64(old(self)@),
    {
        draw_u64(&mut self.inner)
    }

    /// A fair flag.
    pub fn any_bool(&mut self) -> (value: bool)
        ensures
            (value, final(self)@) == drawn_bool(old(self)@),
    {
        draw_bool(&mut self.inner)
    }

    /// Any 128-bit integer.
    pub fn any_i128(&mut self) -> (value: i128)
        ensures
            (value, final(self)@) == drawn_i128(old(self)@),
    {
        draw_i128(&mut self.inner)
    }

    /// A byte within `low..=high`.
    pub fn range_u8(&mut self, low: u8, high: u8) -> (value: u8)
        requires
            low <= high,
        ensures
            low <= value <= high,
            (value, final(self)@) == ranged_u8(old(self)@, low, high),
    {
        draw_range_u8(&mut self.inner, low, high)
    }

    /// A 32-bit word within `low..=high`.
    pub fn range_u32(&mut self, low: u32, high: u32) -> (value: u32)
        requires
            low <= high,
        ensures
            low <= value <= high,
            (value, final(self)@) == ranged_u32(old(self)@, low, high),
    {
        draw_range_u32(&mut self.inner, low, high)
    }

    /// A 128-bit integer within `low..=high`.
    pub fn range_i128(&mut self, low: i128, high: i128) -> (value: i128)
        requires
            low <= high,
        ensures
            low <= value <= high,
            (value, final(self)@) == ranged_i128(old(self)@, low, high),
    {
        draw_range_i128(&mut self.inner, low, high)
    }

    /// A size within `low..=high`.
    pub fn range(&mut self, low: usize, high: usize) -> (value: usize)
        requires
            low <= high,
        ensures
            low <= value <= high,
            (value as int, final(self)@) == between(old(self)@, low as int, high as int),
    {
        draw_range_u64(&mut self.inner, low as u64, high as u64) as usize
    }

    /// An index below `count`.
    pub fn below(&mut self, count: usize) -> (value: usize)
        requires
            0 < count,
        ensures
            value < count,
            (value as int, final(self)@) == picked(old(self)@, count as int),
    {
        self.range(0, count - 1)
    }

    /// True with a chance of `numerator` in `denominator`.
    pub fn chance(&mut self, numerator: u32, denominator: u32) -> (value: bool)
        requires
            0 < denominator,
            numerator <= denominator,
        ensures
            numerator == 0 ==> !value,
            numerator == denominator ==> value,
            (value, final(self)@) == chanced(old(self)@, numerator, denominator),
    {
        draw_ratio(&mut self.inner, numerator, denominator)
    }

    /// `count` random bytes.
    pub fn bytes(&mut self, count: usize) -> (bytes: Vec<u8>)
        ensures
            bytes@.len() == count,
            (bytes@, final(self)@) == filled(old(self)@, count as nat),
    {
        let mut bytes: Vec<u8> = vec![0u8; count];
        draw_fill(&mut self.inner, &mut bytes);
        bytes
    }
}

}
