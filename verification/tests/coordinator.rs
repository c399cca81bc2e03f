use cargo_libafl::coordinator::{
    combine, recipients, worker_count, Broker, Decision, Exit, Message, MessageKind,
    RunStatistics, Supervisor,
};
use cargo_libafl::runtime::{
    broker_port, check_initial_corpus, check_output_dir, initial_inputs, launch_failed,
    output_layout, timeout_from_millis_str, ConfigurationError, InitialInputs, LaunchEnd,
    ResourceError, TimeoutError, CORPUS_CACHE_SIZE, DEFAULT_TIMEOUT_MILLIS,
};

fn stats(executions: u64, corpus_size: u64, crashes: u64, uptime: u64) -> RunStatistics {
    RunStatistics { executions, corpus_size, crashes, uptime }
}

#[test]
fn discoveries_go_to_all_others() {
    assert_eq!(recipients(MessageKind::NewTestCase, 1, 4), vec![0usize, 2, 3]);
    assert_eq!(recipients(MessageKind::NewCrash, 0, 3), vec![1usize, 2]);
    assert_eq!(recipients(MessageKind::NewCrash, 7, 3), vec![0usize, 1, 2]);
    assert_eq!(recipients(MessageKind::NewTestCase, 0, 1), Vec::<usize>::new());
    assert_eq!(recipients(MessageKind::NewTestCase, 0, 0), Vec::<usize>::new());
}

#[test]
fn counters_stay_with_the_broker() {
    assert_eq!(recipients(MessageKind::StatUpdate, 1, 4), Vec::<usize>::new());
}

#[test]
fn message_kinds() {
    let t = Message::NewTestCase { bytes: vec![1], coverage: vec![0, 1] };
    let c = Message::NewCrash { signature: 9, bytes: vec![2] };
    let s = Message::StatUpdate { stats: stats(1, 2, 3, 4) };
    assert_eq!(t.kind(), MessageKind::NewTestCase);
    assert_eq!(c.kind(), MessageKind::NewCrash);
    assert_eq!(s.kind(), MessageKind::StatUpdate);
}

#[test]
fn broker_sums_the_latest_reports() {
    let mut b = Broker::new(3);
    assert_eq!(b.workers(), 3);
    assert_eq!(b.totals(), stats(0, 0, 0, 0));
    assert_eq!(b.executions_per_second(), 0);
    assert!(b.report(0, stats(100, 4, 1, 10)));
    assert!(b.report(2, stats(50, 6, 0, 12)));
    assert!(!b.report(3, stats(1, 1, 1, 1)));
    assert_eq!(b.totals(), stats(150, 10, 1, 12));
    assert_eq!(b.executions_per_second(), 12);
    assert!(b.report(0, stats(400, 5, 2, 20)));
    assert_eq!(b.totals(), stats(450, 11, 2, 20));
    assert_eq!(b.executions_per_second(), 22);
}

#[test]
fn statistics_do_not_wrap() {
    assert_eq!(
        combine(stats(u64::MAX, 1, u64::MAX - 1, 3), stats(1, 2, 1, 2)),
        stats(u64::MAX, 3, u64::MAX, 3)
    );
    let mut b = Broker::new(1);
    b.report(0, stats(77, 0, 0, 0));
    assert_eq!(b.executions_per_second(), 77);
}

#[test]
fn one_worker_per_core_or_one_unbound() {
    assert_eq!(worker_count(0), 1);
    assert_eq!(worker_count(1), 1);
    assert_eq!(worker_count(8), 8);
}

#[test]
fn failed_workers_are_restarted() {
    let mut s = Supervisor::new(2);
    assert_eq!(s.on_exit(Exit::Died, true), Decision::Restart);
    assert_eq!(s.on_exit(Exit::Killed, false), Decision::Restart);
    assert_eq!(s.on_exit(Exit::Died, false), Decision::Restart);
    assert_eq!(s.on_exit(Exit::Died, false), Decision::GiveUp);
    assert_eq!(s.on_exit(Exit::Died, true), Decision::Restart);
    assert_eq!(s.on_exit(Exit::Killed, false), Decision::Restart);
    assert_eq!(s.on_exit(Exit::Clean, false), Decision::Done);
    assert_eq!(s.on_exit(Exit::Killed, false), Decision::Restart);
    assert_eq!(s.on_exit(Exit::Killed, false), Decision::GiveUp);
    let mut strict = Supervisor::new(0);
    assert_eq!(strict.on_exit(Exit::Died, false), Decision::GiveUp);
    assert_eq!(strict.on_exit(Exit::Died, true), Decision::Restart);
    assert_eq!(strict.on_exit(Exit::Clean, true), Decision::Done);
}

#[test]
fn timeout_texts() {
    assert_eq!(timeout_from_millis_str("1000"), Ok(1000));
    assert_eq!(timeout_from_millis_str("0"), Ok(0));
    assert_eq!(timeout_from_millis_str("+15"), Ok(15));
    assert_eq!(timeout_from_millis_str("007"), Ok(7));
    assert_eq!(timeout_from_millis_str("18446744073709551615"), Ok(u64::MAX));
    assert_eq!(timeout_from_millis_str("18446744073709551616"), Err(TimeoutError::Overflow));
    assert_eq!(timeout_from_millis_str("99999999999999999999x"), Err(TimeoutError::Overflow));
    assert_eq!(timeout_from_millis_str(""), Err(TimeoutError::Empty));
    assert_eq!(timeout_from_millis_str("+"), Err(TimeoutError::InvalidDigit));
    assert_eq!(timeout_from_millis_str("-"), Err(TimeoutError::InvalidDigit));
    assert_eq!(timeout_from_millis_str("-5"), Err(TimeoutError::InvalidDigit));
    assert_eq!(timeout_from_millis_str("12a"), Err(TimeoutError::InvalidDigit));
    assert_eq!(timeout_from_millis_str(" 12"), Err(TimeoutError::InvalidDigit));
    assert_eq!(timeout_from_millis_str("++1"), Err(TimeoutError::InvalidDigit));
    assert_eq!(timeout_from_millis_str("１２"), Err(TimeoutError::InvalidDigit));
    assert_eq!(DEFAULT_TIMEOUT_MILLIS, 1000);
}

#[test]
fn timeout_agrees_with_the_standard_parser() {
    for text in ["1000", "0", "+15", "007", "", "+", "-", "-5", "12a", "18446744073709551615",
        "18446744073709551616", "1_000", "0x10", "٣"]
    {
        let ours = timeout_from_millis_str(text).ok();
        let std: Option<u64> = text.parse().ok();
        assert_eq!(ours, std);
    }
}

#[test]
fn output_directories() {
    let layout = output_layout("./out");
    assert_eq!(layout.crashes, "./out/crashes");
    assert_eq!(layout.corpus, "./out/corpus");
    assert_eq!(check_output_dir(true, false), Ok(()));
    assert_eq!(check_output_dir(false, true), Ok(()));
    assert_eq!(check_output_dir(true, true), Ok(()));
    assert_eq!(check_output_dir(false, false), Err(ConfigurationError::OutputNotADirectory));
}

#[test]
fn first_inputs() {
    assert_eq!(initial_inputs(3, 0), InitialInputs::Keep);
    assert_eq!(initial_inputs(1, 2), InitialInputs::Keep);
    assert_eq!(initial_inputs(0, 0), InitialInputs::Generate { count: 8, max_len: 32 });
    assert_eq!(initial_inputs(0, 2), InitialInputs::Load);
    assert_eq!(check_initial_corpus(0), Err(ConfigurationError::NoInitialInputs));
    assert_eq!(check_initial_corpus(1), Ok(()));
    assert_eq!(CORPUS_CACHE_SIZE, 4096);
}

#[test]
fn broker_ports() {
    assert_eq!(broker_port(Some(1337), Some(9)), Ok(1337));
    assert_eq!(broker_port(Some(1337), None), Ok(1337));
    assert_eq!(broker_port(None, Some(9)), Ok(9));
    assert_eq!(broker_port(None, None), Err(ResourceError::NoFreePort));
}

#[test]
fn shutting_down_is_no_failure() {
    assert!(!launch_failed(LaunchEnd::Finished));
    assert!(!launch_failed(LaunchEnd::ShuttingDown));
    assert!(launch_failed(LaunchEnd::Failed));
}
