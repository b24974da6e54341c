//! The mutation operators and their scheduler.
use coverage_fuzzer::mutation::{
    MutationScheduler, MutationStats, MutationStrategy, MutatorConfig,
};
use coverage_fuzzer::ratio::FRACTION_UNIT;

fn sched() -> MutationScheduler {
    MutationScheduler::with_seed(MutatorConfig::default(), Some(42))
}

#[test]
fn bit_flip_changes_exactly_one_bit() {
    let mut s = sched();
    let input = vec![0b1010_1010u8; 4];
    let out = s.bit_flip(&input, 1);
    let diff_bits: usize =
        input.iter().zip(out.iter()).map(|(a, b)| (a ^ b).count_ones() as usize).sum();
    assert_eq!(diff_bits, 1, "bit_flip_1 should flip exactly 1 bit");
}

#[test]
fn arithmetic_changes_one_byte() {
    let mut s = sched();
    let input = vec![0x10u8; 8];
    let out = s.arithmetic(&input, true);
    let changed: usize = input.iter().zip(out.iter()).filter(|(a, b)| a != b).count();
    assert_eq!(changed, 1, "arithmetic should modify exactly 1 byte");
}

#[test]
fn splice_respects_min_length() {
    let mut s = sched();
    let base = vec![1u8; 2];
    let donor = vec![2u8; 2];
    let out = s.splice(&base, &donor);
    assert_eq!(out, base, "splice on short input returns base unchanged");
}

#[test]
fn havoc_runs_without_panic() {
    let mut s = sched();
    let input: Vec<u8> = (0..32).collect();
    for _ in 0..20 {
        let out = s.havoc(&input, None);
        assert!(!out.is_empty());
    }
}

#[test]
fn interesting_value_on_short_input_doesnt_panic() {
    let mut s = sched();
    let out = s.interesting_value(&[0x01]);
    assert!(!out.is_empty());
}

#[test]
fn stats_track_strategies() {
    let mut s = sched();
    let input = vec![0xAAu8; 16];
    s.mutate(&input, None, MutationStrategy::BitFlip1);
    s.mutate(&input, None, MutationStrategy::ArithmeticAdd);
    assert_eq!(s.stats.total_mutations, 2);
    assert_eq!(s.stats.count("bit_flip_1"), Some(1));
    assert_eq!(s.stats.count("arith_add"), Some(1));
}

#[test]
fn counts_by_name() {
    let mut stats = MutationStats::default();
    assert_eq!(stats.count("splice"), None);
    stats.record(MutationStrategy::Splice);
    stats.record(MutationStrategy::Splice);
    assert_eq!(stats.count("splice"), Some(2));
    assert_eq!(stats.count("no such operator"), None);
    assert_eq!(stats.total_mutations, 2);
    assert_eq!(stats.interesting_mutations, 0);
}

#[test]
fn names_and_places() {
    let names: Vec<&str> = MutationStrategy::all().iter().map(|s| s.name()).collect();
    assert_eq!(
        names,
        vec![
            "bit_flip_1", "bit_flip_2", "bit_flip_4", "bit_flip_8", "bit_flip_16", "bit_flip_32",
            "byte_flip", "byte_zero", "byte_max", "arith_add", "arith_sub", "interesting_val",
            "splice", "havoc", "struct_splice",
        ]
    );
    for (i, s) in MutationStrategy::all().iter().enumerate() {
        assert_eq!(s.index(), i);
    }
}

#[test]
fn defaults_of_the_scheduler() {
    let config = MutatorConfig::default();
    assert_eq!(config.havoc_max_rounds, 128);
    assert_eq!(config.splice_max_fraction, FRACTION_UNIT / 2);
    assert_eq!(config.splice_min_bytes, 4);
    assert_eq!(config.mutations_per_entry, 512);
}

#[test]
fn bits_are_flipped_in_a_row() {
    let mut s = sched();
    let input = vec![0u8; 16];
    for count in [1usize, 2, 4, 8, 16, 32] {
        let out = s.bit_flip(&input, count);
        let set: Vec<usize> = (0..128).filter(|b| out[b / 8] >> (b % 8) & 1 == 1).collect();
        assert_eq!(set.len(), count);
        let start = *set.iter().find(|b| !set.contains(&((*b + 127) % 128))).unwrap();
        for i in 0..count {
            assert!(set.contains(&((start + i) % 128)));
        }
    }
    // In one byte sixteen flips undo one another.
    assert_eq!(s.bit_flip(&[0x5a], 16), vec![0x5a]);
}

#[test]
fn flipping_again_restores() {
    let mut a = sched();
    let mut b = sched();
    let input: Vec<u8> = (0..20).collect();
    let once = a.bit_flip(&input, 4);
    assert_ne!(once, input);
    assert_eq!(b.bit_flip(&once, 4), input);
}

#[test]
fn empty_inputs_become_a_zero_byte() {
    let mut s = sched();
    assert_eq!(s.bit_flip(&[], 4), vec![0]);
    assert_eq!(s.byte_mutate(&[], 2), vec![0]);
    assert_eq!(s.arithmetic(&[], false), vec![0]);
    assert_eq!(s.interesting_value(&[]), vec![0]);
    assert_eq!(s.splice(&[], &[1, 2, 3, 4]), Vec::<u8>::new());
    assert!(!s.havoc(&[], None).is_empty());
}

#[test]
fn bytes_are_overwritten() {
    let mut s = sched();
    let input = vec![0x21u8; 12];
    for (mode, new) in [(0u8, 0xdeu8), (1, 0x00), (2, 0xff)] {
        for _ in 0..20 {
            let out = s.byte_mutate(&input, mode);
            assert_eq!(out.len(), 12);
            assert!(out.iter().all(|b| *b == 0x21 || *b == new));
            let changed = out.iter().filter(|b| **b == new).count();
            assert!(changed <= 8 && (mode == 0 || changed >= 1));
        }
    }
}

#[test]
fn arithmetic_moves_by_up_to_thirty_five() {
    let mut s = sched();
    let input = vec![250u8; 6];
    for _ in 0..50 {
        let more = s.arithmetic(&input, true);
        let up: u8 = more.iter().fold(0u8, |t, b| t.wrapping_add(b.wrapping_sub(250)));
        assert!((1..=35).contains(&up));
        let less = s.arithmetic(&input, false);
        let down: u8 = less.iter().fold(0u8, |t, b| t.wrapping_add(250u8.wrapping_sub(*b)));
        assert!((1..=35).contains(&down));
    }
}

#[test]
fn dangerous_integers_are_written() {
    let list: [i64; 20] = [
        0, 1, -1, i64::MAX, i64::MIN, i32::MAX as i64, i32::MIN as i64, i16::MAX as i64,
        i16::MIN as i64, 0xFF, 0x7F, 0x80, 0x100, 0xFFFF, 0x7FFF, 0x8000, 0x10000, 0xFFFF_FFFF,
        0x7FFF_FFFF, -0x8000_0000,
    ];
    let mut s = sched();
    let input = vec![0x77u8; 11];
    for _ in 0..100 {
        let out = s.interesting_value(&input);
        assert_eq!(out.len(), 11);
        let found = (0..=3usize).any(|at| {
            list.iter().any(|v| {
                let mut expected = input.clone();
                expected[at..at + 8].copy_from_slice(&v.to_le_bytes());
                expected == out
            })
        });
        assert!(found, "{:?}", out);
    }
}

#[test]
fn splices_take_a_prefix_and_a_short_suffix() {
    let mut s = sched();
    let base: Vec<u8> = (0..10).collect();
    let donor: Vec<u8> = (100..120).collect();
    for _ in 0..100 {
        let out = s.splice(&base, &donor);
        let kept = out.iter().take_while(|b| **b < 100).count();
        assert!(kept >= 1 && kept < 10);
        assert_eq!(&out[..kept], &base[..kept]);
        let suffix = &out[kept..];
        assert!(!suffix.is_empty() && suffix.len() <= 10);
        assert!(donor.ends_with(suffix));
    }
    let none = MutatorConfig { splice_max_fraction: 0, ..MutatorConfig::default() };
    let mut t = MutationScheduler::with_seed(none, Some(1));
    assert_eq!(t.splice(&base, &donor), base);
}

#[test]
fn arguments_are_swapped() {
    let mut s = sched();
    let base = b"[1, {\"a\": \"x\"}, [2]]";
    let donor = b"[\"donor\"]";
    let expected = [
        "[\"donor\",{\"a\":\"x\"},[2]]",
        "[1,\"donor\",[2]]",
        "[1,{\"a\":\"x\"},\"donor\"]",
    ];
    let mut seen = [false; 3];
    for _ in 0..50 {
        let out = String::from_utf8(s.struct_splice(base, donor)).unwrap();
        let at = expected.iter().position(|e| *e == out).unwrap();
        seen[at] = true;
    }
    assert_eq!(seen, [true; 3]);
}

#[test]
fn other_texts_are_spliced_as_bytes() {
    let base = b"{\"no\": \"array\"}".to_vec();
    let donor = b"[1,2,3]".to_vec();
    let mut a = sched();
    let mut b = sched();
    assert_eq!(a.struct_splice(&base, &donor), b.splice(&base, &donor));
    assert_eq!(a.struct_splice(b"[]        ", &donor), b.splice(b"[]        ", &donor));
    assert_eq!(a.struct_splice(&donor, b"not json"), b.splice(&donor, b"not json"));
}

#[test]
fn items_are_swapped_in_a_list() {
    let mut s = sched();
    let out = s.swap_item(vec![b"1".to_vec()], &vec![b"2".to_vec()]);
    assert_eq!(out, b"[2]".to_vec());
}

#[test]
fn havoc_counts_its_links() {
    let mut s = sched();
    let input: Vec<u8> = (0..32).collect();
    s.mutate(&input, None, MutationStrategy::Havoc);
    assert_eq!(s.stats.count("havoc"), Some(1));
    assert!(s.stats.total_mutations >= 3 && s.stats.total_mutations <= 129);
    assert_eq!(s.stats.per_strategy.iter().sum::<u64>(), s.stats.total_mutations);
}

#[test]
fn a_seed_replays_mutations() {
    let mut a = sched();
    let mut b = sched();
    let mut other = MutationScheduler::with_seed(MutatorConfig::default(), Some(43));
    let input: Vec<u8> = (0..50).collect();
    let donor = b"[1,2,3,4,5]".to_vec();
    let mut differs = false;
    for _ in 0..100 {
        let (x, s) = a.mutate_random(&input, Some(&donor));
        let (y, t) = b.mutate_random(&input, Some(&donor));
        assert_eq!(x, y);
        assert_eq!(s, t);
        differs |= other.mutate_random(&input, Some(&donor)).0 != x;
    }
    assert!(differs);
    assert_eq!(a.stats.per_strategy, b.stats.per_strategy);
}

#[test]
fn every_operator_is_drawn() {
    let mut s = MutationScheduler::new(MutatorConfig::default());
    let input: Vec<u8> = (0..50).collect();
    for _ in 0..600 {
        s.mutate_random(&input, None);
    }
    for strategy in MutationStrategy::all() {
        assert!(s.stats.count(strategy.name()).is_some(), "{:?}", strategy);
    }
}

#[test]
fn a_chain_does_not_count_itself() {
    let mut s = sched();
    for len in 0..40u8 {
        let input: Vec<u8> = (0..len).collect();
        let before = s.stats.total_mutations;
        let out = s.havoc(&input, None);
        assert!(!out.is_empty());
        assert!(s.stats.total_mutations > before);
    }
    assert_eq!(s.stats.count("havoc"), None);
}

#[test]
fn small_splice_fractions_are_held() {
    let config = MutatorConfig {
        splice_max_fraction: FRACTION_UNIT / 2048,
        ..MutatorConfig::default()
    };
    let mut s = MutationScheduler::with_seed(config, Some(1));
    let base = vec![1u8; 8];
    assert_eq!(s.splice(&base, &[2; 2047]), base);
    for _ in 0..20 {
        let out = s.splice(&base, &[2; 4096]);
        let taken = out.iter().filter(|b| **b == 2).count();
        assert!(taken == 1 || taken == 2);
    }
}

#[test]
fn counts_are_copied() {
    let mut s = sched();
    s.mutate(&[1, 2, 3], None, MutationStrategy::ByteZero);
    let copy: MutationStats = s.stats.clone();
    assert_eq!(copy.total_mutations, 1);
    assert_eq!(copy.count("byte_zero"), Some(1));
}
