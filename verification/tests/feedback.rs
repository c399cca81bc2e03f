use cargo_libafl::coverage::{bucket_hitcount, CoverageMap};
use cargo_libafl::feedback::{FeedbackEngine, Outcome, Verdict};

fn map_with(size: usize, edges: &[usize]) -> CoverageMap {
    let mut map = CoverageMap::new(size);
    for e in edges {
        map.record_hit(*e);
    }
    map
}

#[test]
fn seed_then_mutation_then_replay() {
    let mut engine = FeedbackEngine::new(32, false);
    let seed = map_with(32, &[3, 7]);
    assert!(engine.novelty(&seed));
    let child = map_with(32, &[3, 7, 17]);
    assert!(engine.novelty(&child));
    assert_eq!(engine.global().get(17), 1);
    assert_eq!(engine.global().get(3), 1);
    let before: Vec<u8> = engine.global().counters.clone();
    let replay = map_with(32, &[3, 7, 17]);
    assert!(!engine.novelty(&replay));
    assert_eq!(engine.global().counters, before);
}

#[test]
fn same_crash_site_is_persisted_once_and_counted_twice() {
    let mut engine = FeedbackEngine::new(8, false);
    let h1: u64 = 0x1234_5678_9abc_def0;
    assert!(engine.objective(Outcome::Crash, h1));
    assert!(!engine.objective(Outcome::Crash, h1));
    assert_eq!(engine.persisted_count(), 1);
    assert_eq!(engine.crash_count(), 2);
    assert!(engine.is_known(h1));
}

#[test]
fn distinct_crash_sites_are_both_persisted() {
    let mut engine = FeedbackEngine::new(8, false);
    assert!(engine.objective(Outcome::Crash, 1));
    assert!(engine.objective(Outcome::Crash, 2));
    assert_eq!(engine.persisted_count(), 2);
    assert_eq!(engine.crash_count(), 2);
}

#[test]
fn normal_outcome_is_no_crash() {
    let mut engine = FeedbackEngine::new(8, true);
    assert!(!engine.objective(Outcome::Normal, 9));
    assert_eq!(engine.crash_count(), 0);
    assert_eq!(engine.persisted_count(), 0);
    assert!(!engine.is_known(9));
}

#[test]
fn hang_counts_only_where_configured() {
    let mut plain = FeedbackEngine::new(8, false);
    assert!(!plain.objective(Outcome::Hang, 5));
    assert_eq!(plain.crash_count(), 0);
    let mut folded = FeedbackEngine::new(8, true);
    assert!(folded.objective(Outcome::Hang, 5));
    assert!(!folded.objective(Outcome::Hang, 5));
    assert_eq!(folded.crash_count(), 2);
    assert_eq!(folded.persisted_count(), 1);
}

#[test]
fn evaluate_runs_both_feedbacks() {
    let mut engine = FeedbackEngine::new(16, false);
    let exec = map_with(16, &[1]);
    let verdict = engine.evaluate(&exec, Outcome::Crash, 77);
    assert_eq!(verdict, Verdict { input_admitted: true, crash_admitted: true });
    let verdict = engine.evaluate(&exec, Outcome::Crash, 77);
    assert_eq!(verdict, Verdict { input_admitted: false, crash_admitted: false });
    let verdict = engine.evaluate(&exec, Outcome::Normal, 78);
    assert_eq!(verdict, Verdict { input_admitted: false, crash_admitted: false });
    assert_eq!(engine.crash_count(), 2);
}

#[test]
fn higher_count_on_known_edge_is_novel() {
    let mut engine = FeedbackEngine::new(4, false);
    assert!(engine.novelty(&CoverageMap::from_counters(vec![0, 1, 0, 0])));
    assert!(engine.novelty(&CoverageMap::from_counters(vec![0, 2, 0, 0])));
    assert!(!engine.novelty(&CoverageMap::from_counters(vec![0, 1, 0, 0])));
    assert_eq!(engine.global().counters, vec![0, 2, 0, 0]);
}

#[test]
fn covered_edges_only_grow() {
    let mut engine = FeedbackEngine::new(6, false);
    let runs: Vec<Vec<u8>> = vec![
        vec![1, 0, 0, 0, 0, 0],
        vec![0, 0, 3, 0, 0, 0],
        vec![0, 0, 1, 0, 0, 0],
        vec![0, 0, 0, 0, 0, 9],
        vec![0, 0, 0, 0, 0, 0],
    ];
    let mut seen = 0usize;
    for run in runs {
        let previous: Vec<u8> = engine.global().counters.clone();
        engine.novelty(&CoverageMap::from_counters(run));
        for (i, c) in previous.iter().enumerate() {
            assert!(engine.global().get(i) >= *c);
        }
        let now = engine.global().count_covered();
        assert!(now >= seen);
        seen = now;
    }
    assert_eq!(seen, 3);
    assert_eq!(engine.global().counters, vec![1, 0, 3, 0, 0, 9]);
}

#[test]
fn shorter_execution_map_merges_its_own_edges_only() {
    let mut global = CoverageMap::from_counters(vec![1, 1, 1]);
    global.merge(&CoverageMap::from_counters(vec![5]));
    assert_eq!(global.counters, vec![5, 1, 1]);
    let longer = CoverageMap::from_counters(vec![0, 0, 0, 9]);
    assert!(!global.is_novel(&longer));
    global.merge(&longer);
    assert_eq!(global.counters, vec![5, 1, 1]);
}

#[test]
fn hit_counter_saturates() {
    let mut map = CoverageMap::new(2);
    for _ in 0..300 {
        map.record_hit(1);
    }
    assert_eq!(map.get(1), 255);
    assert_eq!(map.get(0), 0);
    map.record_hit(2);
    assert_eq!(map.len(), 2);
    assert_eq!(map.get(2), 0);
    map.reset();
    assert_eq!(map.counters, vec![0, 0]);
}

#[test]
fn hitcount_buckets() {
    let expected: [(u8, u8); 14] = [
        (0, 0),
        (1, 1),
        (2, 2),
        (3, 4),
        (4, 8),
        (7, 8),
        (8, 16),
        (15, 16),
        (16, 32),
        (31, 32),
        (32, 64),
        (127, 64),
        (128, 128),
        (255, 128),
    ];
    for (raw, bucket) in expected {
        assert_eq!(bucket_hitcount(raw), bucket);
    }
    let mut map = CoverageMap::from_counters(vec![0, 3, 5, 200]);
    map.classify();
    assert_eq!(map.counters, vec![0, 4, 8, 128]);
}

#[test]
fn noting_a_signature_counts_nothing() {
    let mut engine = FeedbackEngine::new(4, false);
    assert!(engine.note_known(9));
    assert!(!engine.note_known(9));
    assert_eq!(engine.persisted_count(), 1);
    assert_eq!(engine.crash_count(), 0);
    assert!(!engine.objective(Outcome::Crash, 9));
    assert_eq!(engine.crash_count(), 1);
}

#[test]
fn new_edges_of_an_execution() {
    let global = CoverageMap::from_counters(vec![0, 2, 0, 5]);
    assert_eq!(global.novelties(&CoverageMap::from_counters(vec![1, 2, 0, 9, 7])), vec![0usize, 3]);
    assert_eq!(global.novelties(&CoverageMap::from_counters(vec![0, 1])), Vec::<usize>::new());
    assert_eq!(global.novelties(&CoverageMap::from_counters(vec![])), Vec::<usize>::new());
    assert_eq!(global.novelties(&CoverageMap::from_counters(vec![0, 3])), vec![1usize]);
}
