//! The corpus.
use coverage_fuzzer::corpus::{
    entry_file_name, Corpus, CorpusEntry, CorpusStats, FRACTION_DRAWS, SCORE_UNIT,
};
use coverage_fuzzer::rng::FuzzRng;
use rand::{Rng, SeedableRng};

fn millis(ms: u64) -> u64 {
    ms * 1_000_000
}

fn make_entry(id: usize, size: usize, exec_ms: u64, edges: usize) -> CorpusEntry {
    CorpusEntry::new(vec![0u8; size], millis(exec_ms), edges, None, "test", id)
}

#[test]
fn add_and_select() {
    let mut corpus = Corpus::new();
    corpus.add(make_entry(0, 10, 5, 3));
    corpus.add(make_entry(1, 20, 50, 1));

    let mut rng = FuzzRng::from_seed(42);
    let mut seen = [0usize; 2];
    for _ in 0..100 {
        let e = corpus.select_weighted(&mut rng).unwrap();
        seen[e.id] += 1;
    }
    assert!(seen[0] > seen[1], "faster/smaller entry should win more");
}

#[test]
fn score_heuristic_prefers_small_fast_inputs() {
    let s_small = CorpusEntry::compute_score(10, millis(1), 5);
    let s_large = CorpusEntry::compute_score(1000, millis(100), 5);
    assert!(s_small > s_large);
}

#[test]
fn corpus_stats() {
    let mut corpus = Corpus::new();
    corpus.add(make_entry(0, 10, 5, 2));
    corpus.add(make_entry(1, 20, 10, 3));
    let stats = corpus.stats();
    assert_eq!(stats.size, 2);
    assert_eq!(stats.avg_input_bytes, 15);
}

#[test]
fn score_is_edges_squared_by_length_times_time_plus_one() {
    assert_eq!(CorpusEntry::compute_score(10, millis(2), 3), 9 * SCORE_UNIT / 21);
    assert_eq!(CorpusEntry::compute_score(0, millis(2), 3), 9 * SCORE_UNIT);
    assert_eq!(CorpusEntry::compute_score(10, 999_999, 3), 9 * SCORE_UNIT);
    assert_eq!(CorpusEntry::compute_score(10, millis(2), 0), 0);
    let edges = 0xffff_ffffu128;
    assert_eq!(CorpusEntry::compute_score(0, 0, 0xffff_ffff), edges * edges * SCORE_UNIT);
    assert_eq!(CorpusEntry::compute_score(usize::MAX, u64::MAX, 0), 0);
}

#[test]
fn score_is_monotone() {
    let score = CorpusEntry::compute_score;
    assert!(score(10, millis(3), 4) >= score(11, millis(3), 4));
    assert!(score(10, millis(3), 4) >= score(10, millis(4), 4));
    assert!(score(10, millis(3), 4) <= score(10, millis(3), 5));
}

#[test]
fn stats_are_exact() {
    let mut corpus = Corpus::new();
    assert_eq!(corpus.stats(), CorpusStats::default());
    corpus.add(make_entry(0, 10, 5, 2));
    corpus.add(make_entry(1, 21, 10, 3));
    let a = 4 * SCORE_UNIT / 51;
    let b = 9 * SCORE_UNIT / 211;
    let stats = corpus.stats();
    assert_eq!(stats.avg_input_bytes, 15);
    assert_eq!(stats.avg_exec_ms, 7);
    assert_eq!(stats.total_weight, a + b);
    assert_eq!(stats.max_performance_score, a);
}

#[test]
fn entries_keep_their_order() {
    let mut corpus = Corpus::with_dir("corpus".to_string());
    assert!(corpus.is_empty());
    assert_eq!(corpus.corpus_dir, Some("corpus".to_string()));
    corpus.add_seed(vec![1, 2], Some("first".to_string()));
    corpus.add_seed(vec![3], None);
    assert_eq!(corpus.len(), 2);
    assert_eq!(corpus.next_id(), 2);
    let entries = corpus.entries();
    assert_eq!(entries[0].bytes, vec![1, 2]);
    assert_eq!(entries[0].label, Some("first".to_string()));
    assert_eq!(entries[0].origin, "seed");
    assert_eq!(entries[0].execution_time_ns, 1_000_000);
    assert_eq!(entries[0].new_edges_discovered, 1);
    assert_eq!(entries[0].performance_score, SCORE_UNIT / 3);
    assert_eq!(entries[1].id, 1);
    let copy = entries[1].clone();
    assert_eq!(copy.bytes, vec![3]);
    assert_eq!(copy.origin, "seed");
}

#[test]
fn nothing_is_selected_from_an_empty_corpus() {
    let corpus = Corpus::default();
    let mut rng = FuzzRng::from_seed(1);
    assert!(corpus.select_weighted(&mut rng).is_none());
    assert!(corpus.select_random(&mut rng).is_none());
}

#[test]
fn weightless_entries_are_selected_evenly() {
    let mut corpus = Corpus::new();
    for id in 0..4 {
        corpus.add(make_entry(id, 10, 1, 0));
    }
    assert_eq!(corpus.stats().total_weight, 0);
    let mut rng = FuzzRng::from_seed(3);
    let mut seen = [0usize; 4];
    for _ in 0..400 {
        seen[corpus.select_weighted(&mut rng).unwrap().id] += 1;
    }
    assert!(seen.iter().all(|&n| n > 50));
}

#[test]
fn weighted_selection_follows_the_fraction_drawn() {
    let mut corpus = Corpus::new();
    let shapes = [(10usize, 5u64, 3usize), (20, 50, 1), (3, 1, 2), (100, 9, 30)];
    for (id, (size, ms, edges)) in shapes.iter().enumerate() {
        corpus.add(make_entry(id, *size, *ms, *edges));
    }
    let weights: Vec<f64> = corpus.entries().iter().map(|e| e.performance_score as f64).collect();
    let total: f64 = weights.iter().sum();
    let mut rng = FuzzRng::from_seed(42);
    let mut twin = rand_chacha::ChaCha8Rng::seed_from_u64(42);
    for _ in 0..1000 {
        let threshold = twin.gen::<f64>() * total;
        let mut sum = 0.0;
        let mut expected = weights.len() - 1;
        for (i, w) in weights.iter().enumerate() {
            sum += w;
            if sum >= threshold {
                expected = i;
                break;
            }
        }
        assert_eq!(corpus.select_weighted(&mut rng).unwrap().id, expected);
    }
}

#[test]
fn a_fraction_is_a_draw_by_the_number_of_draws() {
    let mut rng = FuzzRng::from_seed(9);
    let mut twin = rand_chacha::ChaCha8Rng::seed_from_u64(9);
    for _ in 0..100 {
        let draw = rng.any_u64() / 2048;
        assert_eq!(draw as f64 / FRACTION_DRAWS as f64, twin.gen::<f64>());
    }
}

#[test]
fn random_selection_reaches_every_entry() {
    let mut corpus = Corpus::new();
    for id in 0..5 {
        corpus.add(make_entry(id, 1, 1, id));
    }
    let mut rng = FuzzRng::from_seed(8);
    let mut seen = [false; 5];
    for _ in 0..200 {
        seen[corpus.select_random(&mut rng).unwrap().id] = true;
    }
    assert_eq!(seen, [true; 5]);
}

#[test]
fn file_names_are_numbered() {
    assert_eq!(entry_file_name(0), "entry_000000.bin");
    assert_eq!(entry_file_name(42), "entry_000042.bin");
    assert_eq!(entry_file_name(1234567), "entry_1234567.bin");
}

#[test]
fn scores_of_very_many_edges() {
    let score = CorpusEntry::compute_score;
    assert_eq!(score(0, 0, 1 << 32), u128::MAX);
    assert_eq!(score(0, 0, usize::MAX), u128::MAX);
    assert_eq!(score(1 << 40, millis(1 << 40), 1 << 40), SCORE_UNIT - 1);
    assert!(score(1000, millis(1000), 1 << 33) < score(1000, millis(1000), 1 << 34));
}
