//! The random source, numerals and texts.
use coverage_fuzzer::json::write_array;
use coverage_fuzzer::rng::FuzzRng;
use coverage_fuzzer::text::{decimal, hex16, padded_decimal, same_text, signed_decimal, string_of};
use rand::{Rng, SeedableRng};
use rand_chacha::ChaCha8Rng;

fn twins(seed: u64) -> (FuzzRng, ChaCha8Rng) {
    (FuzzRng::from_seed(seed), ChaCha8Rng::seed_from_u64(seed))
}

#[test]
fn draws_are_those_of_the_generator() {
    let (mut a, mut b) = twins(42);
    for _ in 0..100 {
        assert_eq!(a.any_u8(), b.gen::<u8>());
        assert_eq!(a.any_u32(), b.gen::<u32>());
        assert_eq!(a.any_u64(), b.gen::<u64>());
        assert_eq!(a.any_bool(), b.gen::<bool>());
        assert_eq!(a.any_i128(), b.gen::<i128>());
    }
}

#[test]
fn ranges_are_those_of_the_generator() {
    let (mut a, mut b) = twins(7);
    for i in 1..200usize {
        assert_eq!(a.range_u8(0x20, 0x7e), b.gen_range(0x20u8..=0x7e));
        assert_eq!(a.range_u32(0, 9), b.gen_range(0u32..10));
        assert_eq!(a.range_i128(0, i as i128), b.gen_range(0i128..=i as i128));
        assert_eq!(a.range(1, i), b.gen_range(1..=i));
        assert_eq!(a.below(i), b.gen_range(0..i));
        assert_eq!(a.range_u8(1, 35), b.gen_range(1i16..=35) as u8);
    }
}

#[test]
fn chances_are_those_of_the_generator() {
    let (mut a, mut b) = twins(3);
    for _ in 0..500 {
        assert_eq!(a.chance(1, 5), b.gen_bool(0.2));
        assert_eq!(a.chance(3, 10), b.gen_bool(0.3));
        assert_eq!(a.chance(1, 2), b.gen_bool(0.5));
        assert!(!a.chance(0, 4));
        assert!(!b.gen_bool(0.0));
        assert!(a.chance(4, 4));
        assert!(b.gen_bool(1.0));
    }
}

#[test]
fn filled_bytes_are_those_of_the_generator() {
    let (mut a, mut b) = twins(11);
    for len in [0usize, 1, 3, 4, 33, 100] {
        let mut expected = vec![0u8; len];
        b.fill(expected.as_mut_slice());
        assert_eq!(a.bytes(len), expected);
    }
    assert_eq!(a.any_u64(), b.gen::<u64>());
}

#[test]
fn seeds_replay() {
    let mut a = FuzzRng::new(Some(5));
    let mut b = FuzzRng::new(Some(5));
    let mut c = FuzzRng::new(Some(6));
    let x = a.bytes(32);
    assert_eq!(x, b.bytes(32));
    assert_ne!(x, c.bytes(32));
    assert_ne!(FuzzRng::new(None).bytes(32), FuzzRng::new(None).bytes(32));
}

#[test]
fn numerals() {
    assert_eq!(decimal(0), b"0".to_vec());
    assert_eq!(decimal(u128::MAX), u128::MAX.to_string().into_bytes());
    assert_eq!(signed_decimal(-1), b"-1".to_vec());
    assert_eq!(signed_decimal(i128::MIN), i128::MIN.to_string().into_bytes());
    assert_eq!(signed_decimal(i128::MAX), i128::MAX.to_string().into_bytes());
    assert_eq!(padded_decimal(42, 5), b"00042".to_vec());
    assert_eq!(padded_decimal(123456, 5), b"123456".to_vec());
    assert_eq!(hex16(0), "0000000000000000");
    assert_eq!(hex16(0xdead_beef_0123_4567), "deadbeef01234567");
}

#[test]
fn texts_are_compared_and_built() {
    assert!(same_text("naïve 🦀", "naïve 🦀"));
    assert!(!same_text("abc", "abd"));
    assert!(!same_text("abc", "ab"));
    assert_eq!(string_of(&['a', '🦀']), "a🦀");
}

#[test]
fn arrays_are_written() {
    assert_eq!(write_array(&vec![]), b"[]".to_vec());
    assert_eq!(write_array(&vec![b"1".to_vec()]), b"[1]".to_vec());
    assert_eq!(write_array(&vec![b"1".to_vec(), b"\"x\"".to_vec()]), b"[1,\"x\"]".to_vec());
}
