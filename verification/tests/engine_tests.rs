use whitesmith::engine::Engine;
use whitesmith::runner::ChildRegistry;
use whitesmith::status::{ComputationResult, Outcome, RunStatus, StatusStore};

fn terminal(e: &Engine, n: usize) -> bool {
    (0..n).all(|j| {
        !matches!(e.read(j), RunStatus::NotStarted | RunStatus::InProgress)
    })
}

#[test]
fn sequential_run_yields_one_row_per_job() {
    // Pool width 1: claim and complete strictly in turn.
    let n = 5;
    let mut engine = Engine::new(n);
    while let Some(j) = engine.claim(false) {
        assert_eq!(engine.read(j), RunStatus::InProgress);
        engine.complete(j, ComputationResult::Success(10 + j as u64));
    }
    assert!(terminal(&engine, n));
    assert_eq!(engine.row_count(), n);
    let mut seen = vec![false; n];
    for k in 0..n {
        let row = engine.row(k);
        assert!(!seen[row.job], "job {} recorded twice", row.job);
        seen[row.job] = true;
        assert_eq!(row.result, ComputationResult::Success(10 + row.job as u64));
    }
    assert!(seen.iter().all(|&s| s));
}

#[test]
fn interleaved_run_matches_sequential_outcomes() {
    // The same four jobs, completed in a different order than claimed, as
    // two workers would: statuses match the sequential run, row order not.
    let n = 4;
    let result = |j: usize| {
        if j % 2 == 0 {
            ComputationResult::Success(5)
        } else {
            ComputationResult::Error(6)
        }
    };

    let mut sequential = Engine::new(n);
    while let Some(j) = sequential.claim(false) {
        sequential.complete(j, result(j));
    }

    let mut interleaved = Engine::new(n);
    let a = interleaved.claim(false).unwrap();
    let b = interleaved.claim(false).unwrap();
    interleaved.complete(b, result(b));
    let c = interleaved.claim(false).unwrap();
    interleaved.complete(a, result(a));
    let d = interleaved.claim(false).unwrap();
    interleaved.complete(d, result(d));
    interleaved.complete(c, result(c));

    assert_eq!(interleaved.row_count(), n);
    assert_eq!(sequential.row_count(), n);
    for j in 0..n {
        assert_eq!(sequential.read(j), interleaved.read(j));
    }
    // Row order differs between the runs, content per job does not.
    assert_ne!(
        (0..n).map(|k| sequential.row(k).job).collect::<Vec<_>>(),
        (0..n).map(|k| interleaved.row(k).job).collect::<Vec<_>>()
    );
}

#[test]
fn claim_stops_on_abort() {
    let mut engine = Engine::new(3);
    assert_eq!(engine.claim(true), None);
    let j = engine.claim(false).unwrap();
    engine.complete(j, ComputationResult::Success(1));
    assert_eq!(engine.claim(true), None);
}

#[test]
fn resume_skips_in_progress_unless_unlocked() {
    // A campaign interrupted mid-run left job 1 in progress and job 0 done.
    let make_store = || {
        let mut store = StatusStore::new(2);
        store.transition(0, RunStatus::Done(Outcome::Success { millis: 4 }));
        store.transition(1, RunStatus::InProgress);
        store
    };

    // Without re-admission the stuck job is skipped, still in progress.
    let mut engine = Engine::from_store(make_store());
    engine.prepare_run(false, false, false);
    assert!(engine.pending_jobs().is_empty());
    assert_eq!(engine.claim(false), None);
    assert_eq!(engine.read(1), RunStatus::InProgress);

    // With re-admission it returns to NotStarted and runs to a terminal
    // status; the finished job is never re-admitted.
    let mut engine = Engine::from_store(make_store());
    engine.prepare_run(true, false, false);
    assert_eq!(engine.pending_jobs(), vec![1]);
    assert_eq!(engine.read(1), RunStatus::NotStarted);
    assert_eq!(engine.read(0), RunStatus::Done(Outcome::Success { millis: 4 }));
    let j = engine.claim(false).unwrap();
    assert_eq!(j, 1);
    engine.complete(j, ComputationResult::Success(8));
    assert_eq!(engine.read(1), RunStatus::Done(Outcome::Success { millis: 8 }));
    assert_eq!(engine.claim(false), None);
}

#[test]
fn resume_unlocks_timeouts_and_failures_on_request() {
    let mut store = StatusStore::new(3);
    store.transition(0, RunStatus::TimedOut);
    store.transition(1, RunStatus::Failed);
    store.transition(2, RunStatus::Done(Outcome::Failure { millis: 2 }));
    let mut engine = Engine::from_store(store);
    engine.prepare_run(false, true, true);
    assert_eq!(engine.pending_jobs(), vec![0, 1]);
    assert_eq!(engine.read(2), RunStatus::Done(Outcome::Failure { millis: 2 }));
}

#[test]
fn child_registry_pairs_registration_and_deregistration() {
    let mut registry = ChildRegistry::new();
    registry.register(4242);
    registry.register(4243);
    registry.register(4242);
    assert!(registry.contains(4242));
    assert!(registry.contains(4243));
    let snapshot = registry.snapshot();
    assert_eq!(snapshot.len(), 2);
    registry.deregister(4242);
    assert!(!registry.contains(4242));
    assert!(registry.contains(4243));
    registry.deregister(4242);
    assert!(registry.contains(4243));
    registry.deregister(4243);
    assert!(registry.snapshot().is_empty());
}
