use dancespiele::notify::{notification_message, ACK_INTERVAL_MS, ACK_MAX_ATTEMPTS};
use dancespiele::retry::{poll_store, retry_step, PollResult, RetryDecision};

#[test]
fn empty_store_exhausts_exactly_ten_attempts() {
    // the task-result store never yields a value
    let outcomes: Vec<Option<String>> = vec![None; 20];
    let (result, attempts) = poll_store(&outcomes, ACK_MAX_ATTEMPTS);
    assert_eq!(attempts, 10);
    assert!(matches!(result, PollResult::TimedOut));

    // and the pass still reports a plain message instead of crashing
    assert_eq!(notification_message(result), "Error to send notification");
}

#[test]
fn value_found_stops_the_poll() {
    let outcomes: Vec<Option<String>> = vec![None, None, Some(String::from("done"))];
    let (result, attempts) = poll_store(&outcomes, ACK_MAX_ATTEMPTS);
    assert_eq!(attempts, 3);
    match result {
        PollResult::Found(v) => assert_eq!(v, "done"),
        PollResult::TimedOut => panic!("the stored value was not delivered"),
    }
}

#[test]
fn short_recording_counts_as_empty_reads() {
    let outcomes: Vec<Option<String>> = Vec::new();
    let (result, attempts) = poll_store(&outcomes, ACK_MAX_ATTEMPTS);
    assert_eq!(attempts, 10);
    assert!(matches!(result, PollResult::TimedOut));
}

#[test]
fn retry_step_spends_the_budget() {
    assert!(matches!(retry_step(0, 10, None), RetryDecision::Again));
    assert!(matches!(retry_step(8, 10, None), RetryDecision::Again));
    assert!(matches!(retry_step(9, 10, None), RetryDecision::GiveUp));
    match retry_step(9, 10, Some(String::from("late"))) {
        RetryDecision::Deliver(v) => assert_eq!(v, "late"),
        other => panic!("the value should be delivered, got {:?}", other),
    }
}

#[test]
fn poll_budget_matches_the_design() {
    // ten attempts, a hundred milliseconds apart: about one second in all
    assert_eq!(ACK_MAX_ATTEMPTS, 10);
    assert_eq!(ACK_INTERVAL_MS, 100);
}
