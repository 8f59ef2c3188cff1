use bencher::call::KvCall;
use bencher::error::RunnerError;
use bencher::feeder::{FeedAction, FeedEvent, FeedState, Feeder};
use bencher::keys::KeySet;
use bencher::stats::Stats;

fn key_set(keys: &[&str]) -> KeySet {
    let mut set = KeySet::new();
    for k in keys {
        set.insert(k.to_string());
    }
    set
}

/// Runs a feeder over `lines`, answering each call after `latency`
/// microseconds, and gives what it hands over and the calls it dispatched.
fn run(keys: KeySet, lines: &[&str], latency: u64) -> (Option<(Stats, KeySet)>, Vec<KvCall>, Option<RunnerError>) {
    let mut feeder = Feeder::new(keys);
    let mut calls = Vec::new();
    let mut clock: u64 = 1_000;
    let mut next = 0;
    let mut action = FeedAction::ReadLine;
    let mut reported = None;
    loop {
        let event = match action {
            FeedAction::ReadLine => {
                if next < lines.len() {
                    next += 1;
                    FeedEvent::Line(lines[next - 1].to_string())
                } else {
                    FeedEvent::Eof
                }
            }
            FeedAction::Dispatch { call, label } => {
                calls.push(call);
                let started_at = clock;
                clock += latency;
                let finished_at = clock;
                clock += 5;
                FeedEvent::Answered { label, started_at, elapsed_us: latency, finished_at }
            }
            FeedAction::Stop { error } => {
                reported = error;
                break;
            }
        };
        assert!(feeder.stats().has_room());
        action = feeder.step(event);
    }
    (feeder.finish(), calls, reported)
}

#[test]
fn clean_stream_ends_with_one_sample_for_each_call() {
    let lines = [
        "INSERT usertable user3 [ field0=a field1=b ]\n",
        "INSERT usertable user1 [ field0=c ]\n",
        "READ usertable user3\n",
        "UPDATE usertable user1 [ field0=d ]\n",
        "SCAN usertable user1 2\n",
        "INSERT usertable user2 [ field0=e ]\n",
    ];
    let (outcome, calls, reported) = run(KeySet::new(), &lines, 40);
    assert_eq!(reported, None);
    let (stats, keys) = outcome.unwrap();
    assert_eq!(stats.total_ops(), 6);
    assert_eq!(stats.merged(), 1);
    assert_eq!(stats.samples("INSERT"), vec![40, 40, 40]);
    assert_eq!(stats.samples("READ"), vec![40]);
    assert_eq!(stats.samples("UPDATE"), vec![40]);
    assert_eq!(stats.samples("SCAN"), vec![40]);
    // six calls of 40 us, with 5 us between them
    assert_eq!(stats.total_us(), 6 * 40 + 5 * 5);
    assert_eq!(
        keys.to_vec(),
        vec!["usertable_user1".to_string(), "usertable_user2".to_string(), "usertable_user3".to_string()]
    );
    assert_eq!(calls.len(), 6);
    assert_eq!(
        calls[4],
        KvCall::Scan { key_start: "usertable_user1".to_string(), key_end: "usertable_user3".to_string() }
    );
}

#[test]
fn lines_that_are_no_calls_give_no_sample() {
    let lines = ["\n", "[OVERALL], Throughput(ops/sec), 10\n", "READ usertable user1\n", "   \n", "DELETE usertable user1\n"];
    let (outcome, calls, _) = run(key_set(&["usertable_user1"]), &lines, 9);
    let (stats, keys) = outcome.unwrap();
    assert_eq!(stats.total_ops(), 1);
    assert_eq!(calls, vec![KvCall::Get { key: "usertable_user1".to_string() }]);
    assert_eq!(keys.len(), 1);
    assert_eq!(stats.total_us(), 9);
}

#[test]
fn empty_stream_ends_with_empty_statistics() {
    let (outcome, calls, reported) = run(key_set(&["k_1"]), &[], 1);
    let (stats, keys) = outcome.unwrap();
    assert_eq!(reported, None);
    assert!(calls.is_empty());
    assert_eq!(stats.total_ops(), 0);
    assert_eq!(stats.total_us(), 0);
    assert_eq!(stats.merged(), 1);
    assert_eq!(keys.to_vec(), vec!["k_1".to_string()]);
}

#[test]
fn missing_file_ends_the_feeder_at_once() {
    let lines = [
        "READ usertable user1\n",
        "ycsb.sh: line 3: workloads/workloadq: No such file or directory\n",
        "READ usertable user2\n",
    ];
    let (outcome, calls, reported) = run(KeySet::new(), &lines, 3);
    assert!(outcome.is_none());
    assert_eq!(calls, vec![KvCall::Get { key: "usertable_user1".to_string() }]);
    assert_eq!(reported, Some(RunnerError::Io(lines[1].to_string())));
}

#[test]
fn failed_feeder_passes_over_later_events() {
    let mut feeder = Feeder::new(KeySet::new());
    let action = feeder.step(FeedEvent::Line("cat: profile: No such file".to_string()));
    assert_eq!(action, FeedAction::Stop { error: Some(RunnerError::Io("cat: profile: No such file".to_string())) });
    assert_eq!(feeder.state(), FeedState::Failed);
    assert_eq!(feeder.step(FeedEvent::Line("INSERT a b [ c ]".to_string())), FeedAction::Stop { error: None });
    assert_eq!(feeder.feed_a_line("INSERT a b [ c ]"), Ok(None));
    feeder.record_answer("INSERT", 1, 2, 3);
    assert_eq!(feeder.step(FeedEvent::Eof), FeedAction::Stop { error: None });
    assert_eq!(feeder.state(), FeedState::Failed);
    assert!(feeder.keys().is_empty());
    assert_eq!(feeder.stats().total_ops(), 0);
    assert!(feeder.finish().is_none());
}

#[test]
fn malformed_call_ends_the_feeder() {
    let lines = ["INSERT usertable user1 [ a ]\n", "UPDATE usertable\n", "READ usertable user1\n"];
    let (outcome, calls, reported) = run(KeySet::new(), &lines, 3);
    assert!(outcome.is_none());
    assert_eq!(calls.len(), 1);
    assert_eq!(reported, Some(RunnerError::Parse("missing key segment".to_string())));
}

#[test]
fn failed_call_ends_the_feeder() {
    let mut feeder = Feeder::new(KeySet::new());
    let action = feeder.step(FeedEvent::Line("READ usertable user1".to_string()));
    assert_eq!(
        action,
        FeedAction::Dispatch { call: KvCall::Get { key: "usertable_user1".to_string() }, label: "READ".to_string() }
    );
    let action = feeder.step(FeedEvent::Failed(RunnerError::ResponseTimeout));
    assert_eq!(action, FeedAction::Stop { error: Some(RunnerError::ResponseTimeout) });
    assert_eq!(feeder.state(), FeedState::Failed);
    assert!(feeder.finish().is_none());
}

#[test]
fn closed_channel_is_not_reported() {
    let mut feeder = Feeder::new(KeySet::new());
    let action = feeder.step(FeedEvent::Failed(RunnerError::ChannelClosed));
    assert_eq!(action, FeedAction::Stop { error: None });
    assert_eq!(feeder.state(), FeedState::Failed);
    assert!(RunnerError::ChannelClosed.is_benign());
    assert!(!RunnerError::Join.is_benign());
}

#[test]
fn feeder_that_still_reads_hands_over_nothing() {
    let mut feeder = Feeder::new(KeySet::new());
    assert!(feeder.is_reading());
    feeder.step(FeedEvent::Line("READ a b".to_string()));
    assert_eq!(feeder.state(), FeedState::Reading);
    assert!(feeder.finish().is_none());
}

#[test]
fn window_runs_from_the_first_start_to_the_last_end() {
    let mut feeder = Feeder::new(KeySet::new());
    feeder.record_answer("READ", 100, 30, 140);
    feeder.record_answer("READ", 150, 20, 175);
    feeder.record_answer("SCAN", 180, 60, 250);
    feeder.end_of_stream();
    let (stats, _) = feeder.finish().unwrap();
    assert_eq!(stats.total_us(), 150);
    assert_eq!(stats.samples("READ"), vec![30, 20]);
    assert_eq!(stats.samples("SCAN"), vec![60]);
}

#[test]
fn window_is_empty_when_the_clock_runs_back() {
    let mut feeder = Feeder::new(KeySet::new());
    feeder.record_answer("READ", 100, 30, 90);
    feeder.end_of_stream();
    let (stats, _) = feeder.finish().unwrap();
    assert_eq!(stats.total_us(), 0);
    assert_eq!(stats.total_ops(), 1);
}

#[test]
fn error_messages_name_the_failure() {
    assert_eq!(RunnerError::Parse("missing key segment".to_string()).message(), "parse error: missing key segment");
    assert_eq!(RunnerError::Io("gone".to_string()).message(), "io error: gone");
    assert_eq!(RunnerError::ResponseTimeout.message(), "timed out waiting for a response");
    assert_eq!(RunnerError::PhaseTimeout.message(), "timed out waiting for a driver");
    assert_eq!(RunnerError::Join.message(), "a feeder thread panicked");
    assert_eq!(RunnerError::ChannelClosed.message(), "channel closed");
    assert_eq!(RunnerError::parse("x"), RunnerError::Parse("x".to_string()));
}
