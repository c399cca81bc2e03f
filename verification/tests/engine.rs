use cargo_libafl::adaptive::{edit_count, plan_edits, plan_from, OperatorStats};
use cargo_libafl::calibrate::{average_time, calibrate, same_map, smoothed, Measurement, CALIBRATION_RUNS};
use cargo_libafl::coverage::CoverageMap;
use cargo_libafl::feedback::{Outcome, Verdict};
use cargo_libafl::favored::favored_subset;
use cargo_libafl::mutation::{havoc, stack_size, Edit, OPERATOR_COUNT};
use cargo_libafl::rng::{draw, draws};
use cargo_libafl::schedule::{masked, Scheduler};
use cargo_libafl::stages::{
    active_stages, advance, pipeline, runs, selectable, Event, Phase, Stage, StageKind,
};
use cargo_libafl::tokens::TokenDictionary;
use cargo_libafl::coordinator::{Message, RunStatistics};
use cargo_libafl::worker::{observe, Observation, Worker};
use libafl_bolts::rands::StdRand;

fn cov(size: usize, edges: &[usize]) -> CoverageMap {
    let mut counters = vec![0u8; size];
    for e in edges {
        counters[*e] = 1;
    }
    CoverageMap::from_counters(counters)
}

fn observed(bytes: &[u8], edges: &[usize], outcome: Outcome, signature: u64) -> Observation {
    Observation {
        bytes: bytes.to_vec(),
        coverage: cov(32, edges),
        exec_time: 10,
        outcome,
        signature,
        depth: 0,
    }
}

#[test]
fn worker_walks_through_the_example_session() {
    let mut w = Worker::new(32, false);
    let v = w.process(observed(b"AAAA", &[3, 7], Outcome::Normal, 0));
    assert_eq!(v, Verdict { input_admitted: true, crash_admitted: false });
    let v = w.process(observed(b"AAAB", &[3, 7, 17], Outcome::Normal, 0));
    assert!(v.input_admitted);
    assert_eq!(w.feedback().global().get(17), 1);
    assert_eq!(w.corpus().count(), 2);
    let v = w.process(observed(b"AAAB", &[3, 7, 17], Outcome::Normal, 0));
    assert!(!v.input_admitted);
    assert_eq!(w.corpus().count(), 2);
    let h1: u64 = 0xfeed_beef;
    let v = w.process(observed(b"null deref 1", &[3], Outcome::Crash, h1));
    assert_eq!(v, Verdict { input_admitted: false, crash_admitted: true });
    let v = w.process(observed(b"null deref 2", &[7], Outcome::Crash, h1));
    assert_eq!(v, Verdict { input_admitted: false, crash_admitted: false });
    assert_eq!(w.feedback().crash_count(), 2);
    assert_eq!(w.feedback().persisted_count(), 1);
    assert_eq!(w.corpus().count(), 2);
    assert_eq!(w.corpus().get(1).unwrap().bytes(), &b"AAAB".to_vec());
    assert_eq!(w.corpus().get(1).unwrap().edges(), &vec![3usize, 7, 17]);
}

#[test]
fn worker_corpus_covers_the_global_map() {
    let mut w = Worker::new(16, false);
    let runs: [&[usize]; 6] = [&[1], &[1, 2], &[2], &[9, 15], &[], &[15, 3]];
    for (i, edges) in runs.iter().enumerate() {
        let mut o = observed(&[i as u8], edges, Outcome::Normal, 0);
        o.coverage = cov(16, edges);
        w.process(o);
    }
    assert_eq!(w.corpus().count(), 4);
    let mut covered = vec![false; 16];
    for i in 0..w.corpus().count() {
        for e in w.corpus().get(i).unwrap().edges() {
            covered[*e] = true;
        }
    }
    for e in 0..16 {
        assert_eq!(covered[e], w.feedback().global().get(e) != 0);
    }
    let favored = favored_subset(w.corpus());
    let mut by_favored = vec![false; 16];
    for i in favored {
        for e in w.corpus().get(i).unwrap().edges() {
            by_favored[*e] = true;
        }
    }
    assert_eq!(covered, by_favored);
}

#[test]
fn worker_ignores_edges_beyond_its_map() {
    let mut w = Worker::new(4, false);
    let o = Observation {
        bytes: vec![1],
        coverage: CoverageMap::from_counters(vec![0, 0, 0, 0, 1, 1]),
        exec_time: 1,
        outcome: Outcome::Normal,
        signature: 0,
        depth: 0,
    };
    assert!(!w.process(o).input_admitted);
    let o = Observation {
        bytes: vec![2],
        coverage: CoverageMap::from_counters(vec![0, 1, 0, 0, 1, 1]),
        exec_time: 1,
        outcome: Outcome::Normal,
        signature: 0,
        depth: 0,
    };
    assert!(w.process(o).input_admitted);
    assert_eq!(w.corpus().get(0).unwrap().edges(), &vec![1usize]);
}

#[test]
fn pipeline_order_and_gates() {
    let p = pipeline();
    let kinds: Vec<StageKind> = p.iter().map(|s| s.kind).collect();
    assert_eq!(
        kinds,
        vec![
            StageKind::Generalization,
            StageKind::Calibration,
            StageKind::Tracing,
            StageKind::InputToState,
            StageKind::Havoc,
            StageKind::StructuralMutation,
        ]
    );
    assert_eq!(
        active_stages(&p, false),
        vec![
            StageKind::Calibration,
            StageKind::Tracing,
            StageKind::InputToState,
            StageKind::Havoc
        ]
    );
    assert_eq!(active_stages(&p, true), kinds);
    assert!(runs(Stage { kind: StageKind::Havoc, gated: false }, false));
    assert!(!runs(Stage { kind: StageKind::StructuralMutation, gated: true }, false));
    assert!(runs(Stage { kind: StageKind::StructuralMutation, gated: true }, true));
    assert_eq!(active_stages(&vec![], true), vec![]);
}

#[test]
fn life_cycle_of_a_test_case() {
    assert_eq!(advance(Phase::Generated, Event::Measured), Some(Phase::Calibrated));
    assert_eq!(advance(Phase::Calibrated, Event::Admitted), Some(Phase::Queued));
    assert_eq!(advance(Phase::Calibrated, Event::Refused), Some(Phase::Rejected));
    assert_eq!(advance(Phase::Queued, Event::Selected), Some(Phase::Executing));
    assert_eq!(advance(Phase::Executing, Event::Finished), Some(Phase::Queued));
    assert_eq!(advance(Phase::Executing, Event::Selected), None);
    assert_eq!(advance(Phase::Generated, Event::Admitted), None);
    assert_eq!(advance(Phase::Queued, Event::Refused), None);
    for e in [Event::Measured, Event::Admitted, Event::Refused, Event::Selected, Event::Finished] {
        assert_eq!(advance(Phase::Rejected, e), None);
        for p in [Phase::Queued, Phase::Executing] {
            if let Some(next) = advance(p, e) {
                assert!(next == Phase::Queued || next == Phase::Executing);
            }
        }
    }
    assert!(selectable(Phase::Queued));
    assert!(!selectable(Phase::Executing));
    assert!(!selectable(Phase::Generated));
    assert!(!selectable(Phase::Calibrated));
    assert!(!selectable(Phase::Rejected));
}

#[test]
fn calibration_measures_time_and_stability() {
    assert_eq!(CALIBRATION_RUNS, 4);
    let same = vec![cov(8, &[1, 2]), cov(8, &[1, 2]), cov(8, &[1, 2]), cov(8, &[1, 2])];
    assert_eq!(
        calibrate(&same, &vec![10, 20, 30, 41]),
        Measurement { exec_time: 25, unstable: false }
    );
    let flaky = vec![cov(8, &[1, 2]), cov(8, &[1, 2]), cov(8, &[1]), cov(8, &[1, 2])];
    assert_eq!(calibrate(&flaky, &vec![7]), Measurement { exec_time: 7, unstable: true });
    assert_eq!(calibrate(&vec![], &vec![]), Measurement { exec_time: 0, unstable: false });
    assert_eq!(calibrate(&vec![cov(2, &[0])], &vec![]), Measurement { exec_time: 0, unstable: false });
    let lengths = vec![cov(2, &[0]), cov(3, &[0])];
    assert!(calibrate(&lengths, &vec![1, 1]).unstable);
}

#[test]
fn average_and_smoothed_time() {
    assert_eq!(average_time(&vec![]), 0);
    assert_eq!(average_time(&vec![5]), 5);
    assert_eq!(average_time(&vec![1, 2]), 1);
    assert_eq!(average_time(&vec![u64::MAX, u64::MAX, u64::MAX]), u64::MAX);
    assert_eq!(smoothed(100, 200), 125);
    assert_eq!(smoothed(0, 3), 0);
    assert_eq!(smoothed(0, 4), 1);
    assert_eq!(smoothed(u64::MAX, u64::MAX), u64::MAX);
    assert!(same_map(&cov(4, &[1]), &cov(4, &[1])));
    assert!(!same_map(&cov(4, &[1]), &cov(4, &[2])));
    assert!(!same_map(&cov(4, &[1]), &cov(5, &[1])));
}

#[test]
fn operator_weights_follow_finds() {
    let mut stats = OperatorStats::new(4);
    for op in 0..OPERATOR_COUNT {
        assert_eq!(stats.weight(op), 1);
        assert_eq!(stats.counts(op), (0, 0));
    }
    assert_eq!(stats.weight(OPERATOR_COUNT), 0);
    assert!(!stats.record(3, true));
    assert!(!stats.record(3, false));
    assert!(!stats.record(5, false));
    assert_eq!(stats.weight(3), 1);
    assert!(stats.record(5, false));
    assert_eq!(stats.counts(3), (2, 1));
    assert_eq!(stats.counts(5), (2, 0));
    assert_eq!(stats.weight(3), 51);
    assert_eq!(stats.weight(5), 1);
    assert_eq!(stats.weight(0), 1);
    // an operator that no one knows leaves the counters alone but counts as a use of the round
    assert!(!stats.record(OPERATOR_COUNT, true));
    assert!(!stats.record(7, true));
    assert!(!stats.record(7, true));
    assert!(stats.record(7, true));
    assert_eq!(stats.weight(7), 101);
}

#[test]
fn operator_weights_with_period_zero_never_change() {
    let mut stats = OperatorStats::new(0);
    for _ in 0..10 {
        assert!(!stats.record(1, true));
    }
    assert_eq!(stats.counts(1), (10, 10));
    assert_eq!(stats.weight(1), 1);
}

#[test]
fn operator_pick_by_weight() {
    let mut stats = OperatorStats::new(1);
    assert!(stats.record(2, true));
    assert_eq!(stats.weight(2), 101);
    // weights: 1, 1, 101, 1, ... : draws 2..=102 fall to operator 2
    assert_eq!(stats.pick(0), 0);
    assert_eq!(stats.pick(1), 1);
    assert_eq!(stats.pick(2), 2);
    assert_eq!(stats.pick(102), 2);
    assert_eq!(stats.pick(103), 3);
    let total = (OPERATOR_COUNT as u64 - 1) + 101;
    assert_eq!(stats.pick(total - 1), OPERATOR_COUNT - 1);
    assert_eq!(stats.pick(total), 0);
    let mut hits = vec![0u64; OPERATOR_COUNT];
    for d in 0..total {
        hits[stats.pick(d)] += 1;
    }
    for op in 0..OPERATOR_COUNT {
        assert_eq!(hits[op], stats.weight(op));
    }
}

#[test]
fn plan_pairs_draws() {
    let stats = OperatorStats::new(0);
    let plan = plan_from(&stats, &vec![5, 50, 30, 60, 7]);
    assert_eq!(plan, vec![Edit { op: 5, seed: 50 }, Edit { op: 1, seed: 60 }]);
    assert_eq!(plan_from(&stats, &vec![]), vec![]);
    assert_eq!(plan_from(&stats, &vec![9]), vec![]);
}

#[test]
fn stack_sizes() {
    assert_eq!(stack_size(0, 7), 2);
    assert_eq!(stack_size(1, 7), 4);
    assert_eq!(stack_size(6, 7), 128);
    assert_eq!(stack_size(7, 7), 2);
    assert_eq!(stack_size(123, 0), 2);
    assert_eq!(stack_size(62, 100), 1u64 << 63);
    assert_eq!(stack_size(99, 100), 1u64 << 63);
    assert_eq!(edit_count(6, 7), 128);
    assert_eq!(edit_count(8, 10), 256);
    assert_eq!(edit_count(9, 10), 256);
    assert_eq!(edit_count(0, 0), 2);
}

#[test]
fn random_plans_stay_in_bounds() {
    let stats = OperatorStats::new(0);
    let mut rng = StdRand::with_seed(7);
    for _ in 0..50 {
        let plan = plan_edits(&stats, &mut rng, 7);
        assert!(plan.len() >= 2 && plan.len() <= 128);
        assert!(plan.len().is_power_of_two());
        assert!(plan.iter().all(|e| e.op < OPERATOR_COUNT));
    }
}

#[test]
fn draws_come_in_the_requested_number() {
    let mut rng = StdRand::with_seed(1);
    assert_eq!(draws(&mut rng, 0).len(), 0);
    let some = draws(&mut rng, 17);
    assert_eq!(some.len(), 17);
    let mut again = StdRand::with_seed(1);
    assert_eq!(draws(&mut again, 17), some);
    let next = draw(&mut rng);
    assert_eq!(draws(&mut again, 1), vec![next]);
    assert!(some.iter().any(|d| *d != some[0]));
}

#[test]
fn havoc_applies_the_plan() {
    let d = TokenDictionary::load(&vec![b"tok".to_vec()], &vec![]);
    let input = b"some input bytes".to_vec();
    assert_eq!(havoc(input.clone(), &vec![], &d, &vec![]), input);
    let plan = vec![Edit { op: 1, seed: 1 }, Edit { op: 27, seed: 2 }, Edit { op: 999, seed: 3 }];
    let out = havoc(input.clone(), &vec![], &d, &plan);
    assert_eq!(out.len(), input.len() + 3);
    assert_eq!(havoc(input.clone(), &vec![], &d, &plan), out);
    let mut rng = StdRand::with_seed(3);
    let stats = OperatorStats::new(0);
    for _ in 0..20 {
        let plan = plan_edits(&stats, &mut rng, 3);
        assert!(!havoc(input.clone(), &b"partner".to_vec(), &d, &plan).is_empty());
    }
}

#[test]
fn random_scheduling_picks_only_what_has_energy() {
    let mut rng = StdRand::with_seed(11);
    let mut s = Scheduler::new();
    let energies = vec![0u64, 3, 0, 9];
    let favored = vec![3usize];
    assert_eq!(s.next_random(&favored, &energies, &mut rng), Some(3));
    let mut hits = vec![0u32; 4];
    for _ in 0..400 {
        hits[s.next_random(&favored, &energies, &mut rng).unwrap()] += 1;
    }
    assert_eq!(hits[0], 0);
    assert_eq!(hits[2], 0);
    assert!(hits[1] > 40);
    assert!(hits[3] > hits[1]);
    assert_eq!(s.next_random(&vec![], &vec![0, 0], &mut rng), None);
}

#[test]
fn observed_counts_are_put_in_buckets() {
    let o = observe(b"in".to_vec(), vec![0, 1, 3, 5, 200], 9, Outcome::Hang, 4, 2);
    assert_eq!(o.coverage.counters, vec![0, 1, 4, 8, 128]);
    assert_eq!(o.bytes, b"in".to_vec());
    assert_eq!((o.exec_time, o.outcome, o.signature, o.depth), (9, Outcome::Hang, 4, 2));
}

#[test]
fn worker_counts_its_own_executions_only() {
    let mut w = Worker::new(8, false);
    assert_eq!(w.statistics(0), RunStatistics { executions: 0, corpus_size: 0, crashes: 0, uptime: 0 });
    w.process(observed(b"a", &[1], Outcome::Normal, 0));
    w.process(observed(b"b", &[1], Outcome::Crash, 5));
    let v = w.receive(Message::NewTestCase { bytes: b"c".to_vec(), coverage: vec![0, 0, 1, 0, 0, 0, 0, 0] });
    assert_eq!(v, Verdict { input_admitted: true, crash_admitted: false });
    assert_eq!(w.statistics(7), RunStatistics { executions: 2, corpus_size: 2, crashes: 1, uptime: 7 });
}

#[test]
fn peer_discoveries_are_judged_locally() {
    let mut w = Worker::new(4, false);
    let new = Message::NewTestCase { bytes: b"x".to_vec(), coverage: vec![0, 2, 0, 0] };
    assert!(w.receive(new.clone()).input_admitted);
    assert!(!w.receive(new).input_admitted);
    assert_eq!(w.corpus().count(), 1);
    assert_eq!(w.feedback().global().counters, vec![0, 2, 0, 0]);
    let weaker = Message::NewTestCase { bytes: b"y".to_vec(), coverage: vec![0, 1, 0, 0] };
    assert!(!w.receive(weaker).input_admitted);
    let crash = Message::NewCrash { signature: 77, bytes: b"z".to_vec() };
    assert_eq!(w.receive(crash.clone()), Verdict { input_admitted: false, crash_admitted: true });
    assert_eq!(w.receive(crash), Verdict { input_admitted: false, crash_admitted: false });
    // a peer's crash is counted where it happened, not here
    assert_eq!(w.feedback().crash_count(), 0);
    assert_eq!(w.feedback().persisted_count(), 1);
    assert!(w.feedback().is_known(77));
    // and a crash of this worker's own at that site is counted but not persisted again
    let own = w.process(observed(b"own", &[], Outcome::Crash, 77));
    assert_eq!(own, Verdict { input_admitted: false, crash_admitted: false });
    assert_eq!(w.feedback().crash_count(), 1);
    assert_eq!(w.feedback().persisted_count(), 1);
    let stats = Message::StatUpdate {
        stats: RunStatistics { executions: 9, corpus_size: 9, crashes: 9, uptime: 9 },
    };
    assert_eq!(w.receive(stats), Verdict { input_admitted: false, crash_admitted: false });
    assert_eq!(w.corpus().count(), 1);
    assert_eq!(w.statistics(1).executions, 1);
}

#[test]
fn rescheduling_sets_flags_and_energy() {
    let mut w = Worker::new(8, false);
    let mut first = observed(b"long input", &[], Outcome::Normal, 0);
    first.coverage = cov(8, &[1, 2]);
    first.exec_time = 100;
    w.process(first);
    let mut second = observed(b"s", &[], Outcome::Normal, 0);
    second.coverage = cov(8, &[1, 2, 3]);
    second.exec_time = 100;
    second.depth = 1;
    w.process(second);
    let favored = w.reschedule();
    assert_eq!(favored, vec![1usize]);
    assert!(!w.corpus().get(0).unwrap().is_favored());
    assert!(w.corpus().get(1).unwrap().is_favored());
    // first: two new edges against an average of 1, one generation behind: 100 * 200 * 75
    assert_eq!(w.corpus().get(0).unwrap().new_edges(), 2);
    assert_eq!(w.corpus().get(1).unwrap().new_edges(), 1);
    assert_eq!(w.corpus().get(0).unwrap().energy(), 150);
    assert_eq!(w.corpus().get(1).unwrap().energy(), 100);
    assert_eq!(w.corpus().energies(), vec![150u64, 100]);
}

#[test]
fn calibration_smooths_the_execution_time() {
    let mut w = Worker::new(8, false);
    let mut first = observed(b"a", &[], Outcome::Normal, 0);
    first.coverage = cov(8, &[1]);
    first.exec_time = 100;
    w.process(first);
    w.calibrated(0, Measurement { exec_time: 200, unstable: false });
    assert_eq!(w.corpus().get(0).unwrap().exec_time(), 125);
    w.calibrated(0, Measurement { exec_time: 125, unstable: true });
    assert_eq!(w.corpus().get(0).unwrap().exec_time(), 125);
    w.calibrated(5, Measurement { exec_time: 1, unstable: false });
    assert_eq!(w.corpus().count(), 1);
    assert_eq!(w.corpus().get(0).unwrap().bytes(), &b"a".to_vec());
}

#[test]
fn energies_of_absent_test_cases_are_masked() {
    assert_eq!(masked(&vec![5, 6, 7], &vec![true, false, true]), vec![5u64, 0, 7]);
    assert_eq!(masked(&vec![5, 6, 7], &vec![true]), vec![5u64, 0, 0]);
    assert_eq!(masked(&vec![], &vec![true]), Vec::<u64>::new());
    assert_eq!(masked(&vec![1], &vec![true, true]), vec![1u64]);
}

#[test]
fn child_depth_and_partner() {
    let mut w = Worker::new(8, false);
    assert_eq!(w.child_depth(None), 0);
    assert_eq!(w.child_depth(Some(0)), 0);
    assert_eq!(w.partner(9), None);
    let mut a = observed(b"a", &[], Outcome::Normal, 0);
    a.coverage = cov(8, &[1]);
    a.depth = 4;
    w.process(a);
    let mut b = observed(b"b", &[], Outcome::Normal, 0);
    b.coverage = cov(8, &[2]);
    b.depth = u64::MAX;
    w.process(b);
    assert_eq!(w.child_depth(Some(0)), 5);
    assert_eq!(w.child_depth(Some(1)), u64::MAX);
    assert_eq!(w.child_depth(Some(2)), 0);
    assert_eq!(w.partner(0), Some(0));
    assert_eq!(w.partner(7), Some(1));
    assert_eq!(w.partner(u64::MAX), Some(1));
}
