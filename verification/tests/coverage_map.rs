//! The coverage map.
use coverage_fuzzer::coverage_map::{
    CoverageMap, EdgeId, ExecutionCoverage, COVERAGE_MAP_SIZE,
};

#[test]
fn new_edge_detected() {
    let map = CoverageMap::new();
    let mut exec = ExecutionCoverage::new();
    exec.record_edge(42);

    let new = map.new_edges(&exec);
    assert_eq!(new, vec![42]);
}

#[test]
fn merge_adds_to_global() {
    let mut map = CoverageMap::new();
    let mut exec = ExecutionCoverage::new();
    exec.record_edge(10);
    exec.record_edge(20);

    let new = map.merge(&exec);
    assert_eq!(new.len(), 2);
    assert_eq!(map.total_edges(), 2);

    // A second merge of the same data finds no new edges.
    let new2 = map.merge(&exec);
    assert!(new2.is_empty());
    assert_eq!(map.total_edges(), 2);
}

#[test]
fn density_computation() {
    let mut map = CoverageMap::new();
    let mut exec = ExecutionCoverage::new();
    for i in 0..100 {
        exec.record_edge(i);
    }
    map.merge(&exec);
    let density = map.density();
    let d = density.numerator as f64 / density.denominator as f64;
    assert!(d > 0.0 && d < 1.0);
}

#[test]
fn density_is_exact() {
    let mut map = CoverageMap::new();
    let mut exec = ExecutionCoverage::new();
    for i in 0..100 {
        exec.record_edge(i);
    }
    map.merge(&exec);
    let density = map.density();
    assert_eq!(density.numerator, 100);
    assert_eq!(density.denominator, 65536);
    let stats = map.stats();
    assert_eq!(stats.total_edges, 100);
    assert_eq!(stats.density, density);
    assert_eq!(stats.interesting_inputs, 1);
}

#[test]
fn edge_modulo_wraps() {
    let mut map = CoverageMap::new();
    let overflow_id = COVERAGE_MAP_SIZE as EdgeId + 5;
    let mut exec = ExecutionCoverage::new();
    exec.record_edge(overflow_id);
    let new = map.merge(&exec);
    assert_eq!(new.len(), 1);
    assert_eq!(new[0], 5);
}

#[test]
fn reset_clears_state() {
    let mut map = CoverageMap::new();
    let mut exec = ExecutionCoverage::new();
    exec.record_edge(1);
    map.merge(&exec);
    assert_eq!(map.total_edges(), 1);
    map.reset();
    assert_eq!(map.total_edges(), 0);
}

#[test]
fn reset_forgets_the_bitmap_and_the_inputs() {
    let mut map = CoverageMap::default();
    let mut exec = ExecutionCoverage::default();
    exec.record_edge(7);
    map.merge(&exec);
    assert_eq!(map.bitmap_snapshot()[7], 1);
    assert_eq!(map.interesting_input_count(), 1);
    map.reset();
    assert_eq!(map.bitmap_snapshot(), vec![0u8; COVERAGE_MAP_SIZE]);
    assert_eq!(map.interesting_input_count(), 0);
    assert_eq!(map.merge(&exec), vec![7]);
}

#[test]
fn new_edges_ascend_and_leave_the_map_alone() {
    let map = CoverageMap::new();
    let mut exec = ExecutionCoverage::new();
    for edge in [900u32, 3, 65535, 3, 40] {
        exec.record_edge(edge);
    }
    assert_eq!(exec.edges_hit, 4);
    assert_eq!(map.new_edges(&exec), vec![3, 40, 900, 65535]);
    assert_eq!(map.total_edges(), 0);
}

#[test]
fn counts_stop_at_their_maximum() {
    let mut exec = ExecutionCoverage::new();
    for _ in 0..70000 {
        exec.record_edge(9);
    }
    assert_eq!(exec.edge_counts[9], u16::MAX);
    assert_eq!(exec.edges_hit, 1);
    exec.reset();
    assert_eq!(exec.edge_counts[9], 0);
    assert_eq!(exec.edges_hit, 0);
}

#[test]
fn only_inputs_with_new_edges_are_interesting() {
    let mut map = CoverageMap::new();
    let mut a = ExecutionCoverage::new();
    a.record_edge(1);
    a.record_edge(2);
    let mut b = a.clone();
    b.record_edge(3);
    assert_eq!(map.merge(&a), vec![1, 2]);
    assert_eq!(map.merge(&a), Vec::<EdgeId>::new());
    assert_eq!(map.merge(&b), vec![3]);
    assert_eq!(map.interesting_input_count(), 2);
    assert_eq!(map.total_edges(), 3);
}

#[test]
fn merges_in_either_order_see_the_same() {
    let mut a = ExecutionCoverage::new();
    a.record_edge(1);
    a.record_edge(2);
    let mut b = ExecutionCoverage::new();
    b.record_edge(2);
    b.record_edge(3);
    let mut one = CoverageMap::new();
    one.merge(&a);
    one.merge(&b);
    let mut other = CoverageMap::new();
    other.merge(&b);
    other.merge(&a);
    assert_eq!(one.bitmap_snapshot(), other.bitmap_snapshot());
    assert_eq!(one.total_edges(), other.total_edges());
}
