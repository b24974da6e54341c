//! The analysis of WASM binaries.
use coverage_fuzzer::ratio::{Ratio, FRACTION_UNIT};
use coverage_fuzzer::wasm_instrumenter::{
    read_leb128_u32, InstrumentationStats, WasmInstrumentError, WasmInstrumenter,
};

fn minimal_wasm() -> Vec<u8> {
    let mut m = b"\0asm".to_vec();
    m.extend_from_slice(&1u32.to_le_bytes());
    m.push(10);
    m.push(20);
    m.extend_from_slice(&[0u8; 20]);
    m
}

fn larger_wasm() -> Vec<u8> {
    let mut wasm = b"\0asm".to_vec();
    wasm.extend_from_slice(&1u32.to_le_bytes());
    wasm.push(10);
    wasm.extend_from_slice(&[0xC8, 0x01]);
    wasm.extend_from_slice(&[0xAAu8; 200]);
    wasm
}

#[test]
fn instrument_minimal_wasm() {
    let wasm = minimal_wasm();
    let inst = WasmInstrumenter::new();
    let (out, stats) = inst.instrument(&wasm).unwrap();
    assert_eq!(out.len(), wasm.len());
    assert!(stats.blocks_instrumented > 0);
    let overhead = stats.overhead_pct.numerator as f64 / stats.overhead_pct.denominator as f64;
    assert!(overhead < 100.0);
}

#[test]
fn reject_non_wasm() {
    let inst = WasmInstrumenter::new();
    let err = inst.instrument(b"not wasm bytes at all").unwrap_err();
    assert_eq!(err, WasmInstrumentError::NotWasm);
}

#[test]
fn reject_short() {
    let inst = WasmInstrumenter::new();
    let err = inst.instrument(b"\0asm").unwrap_err();
    assert_eq!(err, WasmInstrumentError::TooShort);
}

#[test]
fn simulate_coverage_produces_edges() {
    let wasm = minimal_wasm();
    let inst = WasmInstrumenter::new();
    let cov = inst.simulate_coverage(&wasm, 12345);
    assert!(cov.edges_hit > 0);
}

#[test]
fn different_seeds_different_coverage() {
    let wasm = larger_wasm();
    let inst = WasmInstrumenter::new();
    let cov_a = inst.simulate_coverage(&wasm, 111);
    let cov_b = inst.simulate_coverage(&wasm, 999);
    let same = cov_a.edge_counts.iter().zip(cov_b.edge_counts.iter()).all(|(a, b)| a == b);
    assert!(!same, "different seeds should yield different coverage");
}

#[test]
fn figures_are_exact() {
    let wasm = larger_wasm();
    let (out, stats) = WasmInstrumenter::new().instrument(&wasm).unwrap();
    assert_eq!(out, wasm);
    assert_eq!(stats.blocks_instrumented, 10);
    assert_eq!(stats.edges_identified, 20);
    assert_eq!(stats.overhead_pct, Ratio { numerator: 4000, denominator: 50 });
    assert_eq!(stats.original_size, 211);
    assert_eq!(stats.instrumented_size, 371);
    let blocks_only = WasmInstrumenter { track_edges: false, max_overhead_pct: 20 * FRACTION_UNIT };
    assert_eq!(blocks_only.instrument(&wasm).unwrap().1.edges_identified, 0);
}

#[test]
fn malformed_binaries_count_as_one_block() {
    let mut wasm = minimal_wasm();
    wasm.push(10);
    wasm.push(99);
    let inst = WasmInstrumenter::new();
    assert_eq!(inst.parse_sections(&wasm).unwrap_err(), WasmInstrumentError::MalformedSection);
    let (_, stats) = inst.instrument(&wasm).unwrap();
    assert_eq!(stats.blocks_instrumented, 1);
    assert_eq!(stats.overhead_pct, Ratio { numerator: 0, denominator: 1 });
    let mut cut = minimal_wasm();
    cut.push(1);
    assert!(inst.parse_sections(&cut).is_err());
}

#[test]
fn sections_are_walked() {
    let mut wasm = minimal_wasm();
    wasm.extend_from_slice(&[1, 2, 7, 8, 10, 40]);
    wasm.extend_from_slice(&[5u8; 40]);
    let inst = WasmInstrumenter::new();
    let sections = inst.parse_sections(&wasm).unwrap();
    let ids: Vec<u8> = sections.iter().map(|s| s.id).collect();
    assert_eq!(ids, vec![10, 1, 10]);
    assert_eq!(sections[1].payload, &[7, 8]);
    assert_eq!(inst.estimate_blocks_and_edges(&sections), (3, 6));
    assert_eq!(inst.estimate_instruction_count(&sections), 15);
    assert_eq!(inst.parse_sections(b"short").unwrap().len(), 0);
}

#[test]
fn numbers_are_read() {
    assert_eq!(read_leb128_u32(&[0x05]), Some((5, 1)));
    assert_eq!(read_leb128_u32(&[0xC8, 0x01, 0xff]), Some((200, 2)));
    assert_eq!(read_leb128_u32(&[0xff, 0xff, 0xff, 0xff, 0x0f]), Some((u32::MAX, 5)));
    // Bits beyond the thirty-second are dropped.
    assert_eq!(read_leb128_u32(&[0x80, 0x80, 0x80, 0x80, 0x7f]), Some((0xf000_0000, 5)));
    assert_eq!(read_leb128_u32(&[0x80, 0x80, 0x80, 0x80, 0x80, 0x00]), None);
    assert_eq!(read_leb128_u32(&[0x80]), None);
    assert_eq!(read_leb128_u32(&[]), None);
}

#[test]
fn walk_matches_its_definition() {
    let wasm = larger_wasm();
    let cov = WasmInstrumenter::new().simulate_coverage(&wasm, 777);
    let mut counts = vec![0u16; 65536];
    let mut state = 777u64;
    let mut prev = 0u32;
    for _ in 0..5 {
        state = state.wrapping_mul(6364136223846793005).wrapping_add(1442695040888963407);
        let cur = (state >> 33) as u32 % 10;
        counts[(prev ^ cur) as usize] += 1;
        prev = cur;
    }
    assert_eq!(cov.edge_counts, counts);
}

#[test]
fn overhead_budget() {
    let inst = WasmInstrumenter::default();
    assert!(!inst.exceeds_budget(Ratio { numerator: 20, denominator: 1 }));
    assert!(inst.exceeds_budget(Ratio { numerator: 2001, denominator: 100 }));
    assert!(!inst.exceeds_budget(InstrumentationStats::default().overhead_pct));
}

#[test]
fn errors_in_words() {
    assert_eq!(WasmInstrumentError::TooShort.to_text(), "WASM binary too short");
    assert_eq!(WasmInstrumentError::NotWasm.to_text(), "not a WASM binary (missing magic)");
    assert_eq!(WasmInstrumentError::MalformedSection.to_text(), "malformed WASM section");
    let other = WasmInstrumentError::InstrumentationFailed("no encoder".to_string());
    assert_eq!(other.to_text(), "instrumentation failed: no encoder");
    assert_eq!(other.clone(), other);
}

#[test]
fn fine_overhead_budgets_are_held() {
    let inst = WasmInstrumenter { track_edges: true, max_overhead_pct: FRACTION_UNIT / 2048 };
    assert!(!inst.exceeds_budget(Ratio { numerator: 1, denominator: 2048 }));
    assert!(inst.exceeds_budget(Ratio { numerator: 1, denominator: 2047 }));
}
