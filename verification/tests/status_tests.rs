use whitesmith::runner::{classify_exit, classify_timed_exit, effective_timeout};
use whitesmith::status::{terminal_status, ComputationResult, Outcome, RunStatus, StatusStore};

#[test]
fn classify_plain_exit() {
    assert_eq!(classify_exit(true, 42), ComputationResult::Success(42));
    assert_eq!(classify_exit(false, 42), ComputationResult::Error(42));
}

#[test]
fn timed_wait_expiry_is_timed_out_with_the_bound() {
    // A command that sleeps past its timeout: the wait reports no exit,
    // and the classification carries the one-second bound, not the sleep.
    let r = classify_timed_exit(None, 1021, 1000);
    assert_eq!(r, ComputationResult::Timeout(1000));
}

#[test]
fn timed_wait_exit_within_bound_is_classified_by_status() {
    assert_eq!(classify_timed_exit(Some(true), 300, 1000), ComputationResult::Success(300));
    assert_eq!(classify_timed_exit(Some(false), 300, 1000), ComputationResult::Error(300));
}

#[test]
fn job_timeout_overrides_global() {
    assert_eq!(effective_timeout(Some(500), Some(9000)), Some(500));
    assert_eq!(effective_timeout(None, Some(9000)), Some(9000));
    assert_eq!(effective_timeout(None, None), None);
}

#[test]
fn terminal_status_of_each_result() {
    assert_eq!(
        terminal_status(ComputationResult::Success(7)),
        RunStatus::Done(Outcome::Success { millis: 7 })
    );
    assert_eq!(
        terminal_status(ComputationResult::Error(9)),
        RunStatus::Done(Outcome::Failure { millis: 9 })
    );
    assert_eq!(terminal_status(ComputationResult::Timeout(1000)), RunStatus::TimedOut);
}

#[test]
fn absent_marker_reads_not_started() {
    let store = StatusStore::new(2);
    assert_eq!(store.read(0), RunStatus::NotStarted);
    assert_eq!(store.read(7), RunStatus::NotStarted);
}

#[test]
fn transition_writes_one_marker() {
    let mut store = StatusStore::new(3);
    store.transition(1, RunStatus::InProgress);
    assert_eq!(store.read(0), RunStatus::NotStarted);
    assert_eq!(store.read(1), RunStatus::InProgress);
    assert_eq!(store.read(2), RunStatus::NotStarted);
}

#[test]
fn unlock_resets_only_the_given_status() {
    let mut store = StatusStore::new(4);
    store.transition(0, RunStatus::Done(Outcome::Success { millis: 5 }));
    store.transition(1, RunStatus::TimedOut);
    store.transition(2, RunStatus::Failed);
    store.transition(3, RunStatus::InProgress);
    store.unlock(RunStatus::TimedOut);
    // Only the timed-out job is re-admitted; Done survives every unlock.
    assert_eq!(store.read(0), RunStatus::Done(Outcome::Success { millis: 5 }));
    assert_eq!(store.read(1), RunStatus::NotStarted);
    assert_eq!(store.read(2), RunStatus::Failed);
    assert_eq!(store.read(3), RunStatus::InProgress);
    store.unlock(RunStatus::InProgress);
    store.unlock(RunStatus::Failed);
    assert_eq!(store.read(0), RunStatus::Done(Outcome::Success { millis: 5 }));
    assert_eq!(store.read(2), RunStatus::NotStarted);
    assert_eq!(store.read(3), RunStatus::NotStarted);
}

#[test]
fn unlock_twice_equals_unlock_once() {
    let mut once = StatusStore::new(3);
    once.transition(0, RunStatus::TimedOut);
    once.transition(2, RunStatus::Failed);
    let mut twice = StatusStore::new(3);
    twice.transition(0, RunStatus::TimedOut);
    twice.transition(2, RunStatus::Failed);
    once.unlock(RunStatus::TimedOut);
    twice.unlock(RunStatus::TimedOut);
    twice.unlock(RunStatus::TimedOut);
    for j in 0..3 {
        assert_eq!(once.read(j), twice.read(j));
    }
}
