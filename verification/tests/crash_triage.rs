//! Crash triage: normalisation, fingerprints, grouping, minimisation.
use coverage_fuzzer::crash_triage::{
    compute_fingerprint, CrashInfo, CrashTriageConfig, CrashTriageEngine,
};
use coverage_fuzzer::delta_debug::{minimise, Budget};
use coverage_fuzzer::normalise::{normalise_error, space};
use std::collections::hash_map::DefaultHasher;
use std::hash::{Hash, Hasher};

fn always_crashes(_: &[u8]) -> bool {
    true
}

fn never_crashes(_: &[u8]) -> bool {
    false
}

fn crash(input: &[u8], error: &str) -> CrashInfo {
    CrashInfo {
        input: input.to_vec(),
        error_text: error.to_string(),
        execution_time_ns: 0,
        label: None,
    }
}

#[test]
fn new_unique_crash_is_reported() {
    let mut engine = CrashTriageEngine::new(CrashTriageConfig::default());
    let info = CrashInfo {
        input: b"AAAAAA".to_vec(),
        error_text: "panic: index out of range".to_string(),
        execution_time_ns: 5_000_000,
        label: None,
    };
    let report = engine.process(info, always_crashes);
    assert!(report.is_some(), "first crash should be reported");
    assert_eq!(engine.unique_crash_count(), 1);
}

#[test]
fn duplicate_crash_suppressed() {
    let mut engine = CrashTriageEngine::new(CrashTriageConfig::default());
    let make = || CrashInfo {
        input: b"TEST".to_vec(),
        error_text: "panic: index out of range".to_string(),
        execution_time_ns: 1_000_000,
        label: None,
    };
    let r1 = engine.process(make(), always_crashes);
    let r2 = engine.process(make(), always_crashes);
    assert!(r1.is_some());
    assert!(r2.is_none(), "duplicate should be suppressed");
    assert_eq!(engine.unique_crash_count(), 1);
    assert_eq!(engine.total_crash_count(), 2);
}

#[test]
fn different_errors_produce_different_fingerprints() {
    let mut engine = CrashTriageEngine::new(CrashTriageConfig::default());
    let r1 = engine.process(crash(b"A", "panic: integer overflow"), always_crashes);
    let r2 = engine.process(crash(b"B", "panic: null pointer dereference"), always_crashes);
    assert!(r1.is_some());
    assert!(r2.is_some());
    assert_eq!(engine.unique_crash_count(), 2);
}

#[test]
fn normalisation_strips_addresses() {
    let raw = "error at 0x7fff1234abcd in contract";
    let norm = normalise_error(raw);
    assert!(!norm.contains("7fff1234abcd"), "should strip hex address");
    assert!(norm.contains("0xADDR"));
}

#[test]
fn normalisation_strips_long_hashes() {
    let hash = "a".repeat(64);
    let raw = format!("contract {} panicked", hash);
    let norm = normalise_error(&raw);
    assert!(!norm.contains(&hash));
    assert!(norm.contains("HASH"));
}

#[test]
fn minimisation_reduces_input() {
    let mut engine = CrashTriageEngine::new(CrashTriageConfig::default());
    // The input crashes if it holds the byte 0x41.
    let reproduces = |input: &[u8]| input.contains(&0x41);
    let info = crash(&[0x00, 0x41, 0x00, 0x00, 0x00, 0x00, 0x00, 0x00], "crash");
    let report = engine.process(info, reproduces).unwrap();
    assert!(
        report.minimal_input.len() <= 2,
        "should minimise to 1-2 bytes, got {}",
        report.minimal_input.len()
    );
    assert!(report.minimal_input.contains(&0x41));
    assert!(report.bytes_saved > 0);
}

#[test]
fn minimisation_stops_when_crash_doesnt_reproduce() {
    let mut engine = CrashTriageEngine::new(CrashTriageConfig::default());
    let info = crash(b"ABCDEFGH", "crash");
    let report = engine.process(info, always_crashes).unwrap();
    assert_eq!(report.minimal_input.len(), 1);
}

#[test]
fn input_that_no_part_reproduces_is_kept() {
    let mut engine = CrashTriageEngine::new(CrashTriageConfig::default());
    let report = engine.process(crash(b"ABCDEFGH", "crash"), never_crashes).unwrap();
    assert_eq!(report.minimal_input, b"ABCDEFGH".to_vec());
    assert_eq!(report.bytes_saved, 0);
}

#[test]
fn report_holds_the_crash() {
    let mut engine = CrashTriageEngine::new(CrashTriageConfig::default());
    let mut info = crash(b"xyzAxyz", "panic at 0xdead:  src/lib.rs:42");
    info.label = Some("transfer".to_string());
    let report = engine.process(info, |c: &[u8]| c.contains(&b'A')).unwrap();
    assert_eq!(report.minimal_input, b"A".to_vec());
    assert_eq!(report.original_input, b"xyzAxyz".to_vec());
    assert_eq!(report.bytes_saved, 6);
    assert_eq!(report.raw_error, "panic at 0xdead:  src/lib.rs:42");
    assert_eq!(report.normalised_error, "panic at 0xADDR: src/lib.rs:LINE");
    assert_eq!(report.fingerprint, compute_fingerprint("panic at 0xADDR: src/lib.rs:LINE"));
    assert_eq!(report.label, Some("transfer".to_string()));
    assert_eq!(report.clone().fingerprint, report.fingerprint);
}

#[test]
fn groups_keep_the_first_crash_and_count() {
    let mut engine = CrashTriageEngine::new(CrashTriageConfig::default());
    engine.process(crash(b"1", "fault at 0x10"), never_crashes);
    engine.process(crash(b"2", "fault at 0x20"), never_crashes);
    engine.process(crash(b"3", "fault at 0x30"), never_crashes);
    engine.process(crash(b"4", "another"), never_crashes);
    assert_eq!(engine.unique_crash_count(), 2);
    assert_eq!(engine.total_crash_count(), 4);
    let groups = engine.groups();
    assert_eq!(groups.len(), 2);
    let fault = groups.iter().find(|g| g.canonical.normalised_error == "fault at 0xADDR").unwrap();
    assert_eq!(fault.occurrence_count, 3);
    assert_eq!(fault.canonical.original_input, b"1".to_vec());
    assert_eq!(fault.fingerprint, fault.canonical.fingerprint);
}

#[test]
fn fingerprint_is_the_hash_of_the_text() {
    for text in ["", "crash", "panic at 0xADDR", "naïve 🦀 text"] {
        let mut hasher = DefaultHasher::new();
        text.hash(&mut hasher);
        assert_eq!(compute_fingerprint(text), format!("{:016x}", hasher.finish()));
    }
}

#[test]
fn noise_does_not_change_the_fingerprint() {
    let a = "2024-05-06 12:34:56.789 panic at src/vm.rs:10: value: 42, got: -7 in 0xabc";
    let b = "2023-01-02 01:02:03.4 panic at src/vm.rs:999: value: 5, got: 1234 in 0x1";
    assert_eq!(normalise_error(a), normalise_error(b));
    assert_eq!(
        compute_fingerprint(&normalise_error(a)),
        compute_fingerprint(&normalise_error(b))
    );
}

#[test]
fn normalisation_of_each_kind_of_noise() {
    assert_eq!(normalise_error("at 0xDEADbeef!"), "at 0xADDR!");
    assert_eq!(normalise_error("lib.rs:12:34 failed"), "lib.rs:LINE:LINE failed");
    assert_eq!(normalise_error(&format!("id {}", "0a".repeat(16))), "id HASH");
    assert_eq!(normalise_error(&"b".repeat(31)), "b".repeat(31));
    assert_eq!(normalise_error("on 2024-01-31 at 23:59:59.123"), "on TIME at TIME");
    assert_eq!(normalise_error("bad value: 17"), "bad value: VALUE");
    assert_eq!(normalise_error("got: -3 instead"), "got: VALUE instead");
    assert_eq!(normalise_error("error:0x7fff1234abcd"), "error:0xADDR");
    assert_eq!(normalise_error("value:0x1f, got: 0x2e"), "value:0xADDR, got: 0xADDR");
    assert_eq!(normalise_error(&format!("id:{}", "0a".repeat(32))), "id:HASH");
    assert_eq!(normalise_error("at:2024-01-31 time:23:59:59.5"), "at:TIME time:TIME");
    assert_eq!(normalise_error("a:00x1"), "a:LINEx1");
    assert_eq!(normalise_error("got: 4.1 got: +5"), "got: VALUE got: VALUE");
    assert_eq!(normalise_error("got: 30days"), "got: VALUEdays");
    assert_eq!(normalise_error("value: -1.5e-7!"), "value: VALUE!");
    assert_eq!(normalise_error("value: 1e6 got: 3E+2x"), "value: VALUE got: VALUEx");
    assert_eq!(normalise_error(&format!("got: {}", i128::MAX)), "got: VALUE");
    assert_eq!(normalise_error(&format!("got: {}", "1a".repeat(32))), "got: HASH");
    assert_eq!(normalise_error("got: 12:34:56.7"), "got: TIME");
    assert_eq!(normalise_error("at 9:05:07 or 12:34 or 7:08"), "at TIME or TIME or TIME");
    assert_eq!(normalise_error("2024-01-31T12:34Z"), "TIMETTIMEZ");
    assert_eq!(normalise_error("test_1:42 part7:9"), "test_1:LINE part7:LINE");
    assert_eq!(normalise_error("  many \t\n blanks  "), "many blanks");
    assert_eq!(normalise_error(""), "");
}

#[test]
fn normal_text_stays() {
    for text in ["panic: index out of range", "deadbeef is short", "a:b"] {
        assert_eq!(normalise_error(text), text);
    }
}

#[test]
fn blanks_are_the_white_space_of_unicode() {
    for code in 0..=0x10ffffu32 {
        if let Some(c) = char::from_u32(code) {
            assert_eq!(space(c), c.is_whitespace(), "{:x}", code);
        }
    }
}

#[test]
fn minimisation_respects_its_budget() {
    let input: Vec<u8> = (0..64).collect();
    let mut asked = 0usize;
    let mut reproduces = |c: &[u8]| {
        asked += 1;
        c.contains(&63)
    };
    let out = minimise(&input, &mut reproduces, Budget { max_trials: 5, min_bytes: 1 });
    assert!(asked <= 5);
    assert!(out.contains(&63));
    assert!(out.len() < 64);
}

#[test]
fn minimisation_respects_the_minimum_length() {
    let input = vec![1u8; 20];
    let out = minimise(&input, &mut always_crashes, Budget { max_trials: 256, min_bytes: 3 });
    assert_eq!(out.len(), 3);
}

#[test]
fn minimised_input_is_one_minimal() {
    let input: Vec<u8> = (0..40).collect();
    let needed = |c: &[u8]| [3u8, 17, 18, 39].iter().all(|b| c.contains(b));
    let mut reproduces = needed;
    let out = minimise(&input, &mut reproduces, Budget { max_trials: 1000, min_bytes: 1 });
    assert_eq!(out, vec![3, 17, 18, 39]);
    for i in 0..out.len() {
        let mut less = out.clone();
        less.remove(i);
        assert!(!needed(&less));
    }
}

#[test]
fn minimisation_of_an_empty_input() {
    let out = minimise(&[], &mut always_crashes, Budget { max_trials: 256, min_bytes: 1 });
    assert!(out.is_empty());
}

#[test]
fn addresses_after_a_colon_are_noise() {
    let fingerprint = |text: &str| compute_fingerprint(&normalise_error(text));
    assert_eq!(fingerprint("error:0x7fff1234abcd"), fingerprint("error:0x1"));
    assert_eq!(fingerprint("got: 41"), fingerprint("got: 42"));
    assert_eq!(fingerprint("value: got:-41"), fingerprint("value: got:  7"));
    assert_ne!(fingerprint("error:0x1"), fingerprint("error:1"));
}

#[test]
fn a_removal_can_make_an_earlier_byte_superfluous() {
    let accepted: [&[u8]; 4] = [&[1, 2, 3, 4], &[1, 3, 4], &[1, 4], &[4]];
    let mut reproduces = |c: &[u8]| accepted.iter().any(|a| *a == c);
    let budget = Budget { max_trials: 256, min_bytes: 1 };
    assert_eq!(minimise(&[1, 2, 3, 4], &mut reproduces, budget), vec![4]);
}

#[test]
fn without_trials_the_input_stays() {
    let input: Vec<u8> = (0..16).collect();
    let budget = Budget { max_trials: 0, min_bytes: 1 };
    assert_eq!(minimise(&input, &mut always_crashes, budget), input);
    let engine = CrashTriageEngine::new(CrashTriageConfig {
        max_minimise_iters: 0,
        min_input_bytes: 1,
    });
    assert_eq!(engine.delta_debug(&input, &mut always_crashes), input);
}

#[test]
fn a_large_budget_is_not_used_up() {
    for len in 0..10usize {
        let input: Vec<u8> = (0..len as u8).collect();
        for wanted in 0..len as u8 {
            let mut asked = 0usize;
            let mut reproduces = |c: &[u8]| {
                asked += 1;
                c.contains(&wanted)
            };
            let budget = Budget { max_trials: usize::MAX, min_bytes: 0 };
            assert_eq!(minimise(&input, &mut reproduces, budget), vec![wanted]);
            assert!(asked <= 3 * len * len + len);
        }
    }
}

#[test]
fn all_crashes_are_counted() {
    let mut engine = CrashTriageEngine::new(CrashTriageConfig::default());
    let mut reported = 0;
    for i in 0..12u8 {
        let error = format!("kind {}", ["one", "two", "three"][(i % 3) as usize]);
        if engine.process(crash(&[i], &error), never_crashes).is_some() {
            reported += 1;
        }
    }
    assert_eq!(reported, 3);
    assert_eq!(engine.unique_crash_count(), 3);
    assert_eq!(engine.total_crash_count(), 12);
    let groups = engine.groups();
    assert_eq!(groups.iter().map(|g| g.occurrence_count).sum::<u64>(), 12);
    for (i, a) in groups.iter().enumerate() {
        assert_eq!(a.fingerprint, compute_fingerprint(&a.canonical.normalised_error));
        assert_eq!(a.fingerprint.len(), 16);
        assert!(groups[..i].iter().all(|b| a.fingerprint != b.fingerprint));
    }
}

#[test]
fn values_of_every_shape_are_noise() {
    let shapes = ["41", "42", "4.1", "4.2", "+5", "-6", "1e5", "1.5E-6", "0", "007"];
    for label in ["got: ", "value: ", "value:", "got:\t"] {
        for rest in ["", "days", " more", ", and", ":12", ".", "e", "]"] {
            let first = normalise_error(&format!("x {}{}{}", label, shapes[0], rest));
            for shape in shapes {
                assert_eq!(normalise_error(&format!("x {}{}{}", label, shape, rest)), first);
            }
        }
    }
}

#[test]
fn times_of_every_shape_are_noise() {
    let shapes =
        ["2024-01-31", "12:34:56", "9:05:07", "12:34:56.789", "11:34", "12:34", "8:05"];
    for head in ["", "at ", "[", "start=", "("] {
        for rest in ["", " more", "]", "Z", "+"] {
            let first = normalise_error(&format!("{}{}{}", head, shapes[0], rest));
            for shape in shapes {
                assert_eq!(normalise_error(&format!("{}{}{}", head, shape, rest)), first);
            }
        }
    }
}

#[test]
fn line_numbers_are_noise_after_digits_too() {
    for head in ["lib.rs", "lib.rs:7", "at 12", "part7", "at 123", "T1"] {
        let first = normalise_error(&format!("{}:34: x", head));
        for line in ["5", "345", "0", "12345"] {
            assert_eq!(normalise_error(&format!("{}:{}: x", head, line)), first, "{}", head);
        }
    }
}

#[test]
fn only_shorter_parts_are_asked_about() {
    let input: Vec<u8> = (0..12).collect();
    let mut asked: Vec<Vec<u8>> = Vec::new();
    let mut reproduces = |c: &[u8]| {
        asked.push(c.to_vec());
        c.contains(&5) && c.contains(&9)
    };
    minimise(&input, &mut reproduces, Budget { max_trials: 256, min_bytes: 2 });
    assert!(!asked.is_empty());
    for part in asked {
        assert!(part.len() >= 2 && part.len() < input.len());
        assert!(part.windows(2).all(|w| w[0] < w[1]));
    }
}

#[test]
fn known_crashes_are_not_minimised() {
    let mut engine = CrashTriageEngine::new(CrashTriageConfig::default());
    engine.process(crash(&[1, 2, 3], "boom"), always_crashes);
    let mut asked = 0;
    let report = engine.process(crash(&[1], "boom"), |_: &[u8]| {
        asked += 1;
        true
    });
    assert!(report.is_none());
    assert_eq!(asked, 0);
    assert_eq!(engine.groups()[0].clone().canonical.original_input, vec![1, 2, 3]);
}
