//! Run status model: the lifecycle state of one job, the classified outcome
//! of one command execution, and the durable status store with its unlock
//! (re-admission) operation.

use vstd::prelude::*;

verus! {

/// The classified outcome of a finished command: success or failure, with
/// the elapsed wall-clock time in milliseconds.
#[derive(Clone, Copy, PartialEq, Eq, Structural, Debug)]
pub enum Outcome {
    Success { millis: u64 },
    Failure { millis: u64 },
}

/// What one invocation of the process runner reported: a clean exit, a
/// nonzero exit, or a timeout expiry (carrying the timeout bound itself,
/// in milliseconds).
#[derive(Clone, Copy, PartialEq, Eq, Structural, Debug)]
pub enum ComputationResult {
    Success(u64),
    Error(u64),
    Timeout(u64),
}

/// The durable lifecycle state of one job. Absence of a persisted marker
/// reads as `NotStarted`.
#[derive(Clone, Copy, PartialEq, Eq, Structural, Debug)]
pub enum RunStatus {
    NotStarted,
    InProgress,
    Done(Outcome),
    TimedOut,
    Failed,
}

impl RunStatus {
    /// A terminal status: the job needs no further execution in this
    /// campaign and owns exactly one summary row.
    pub open spec fn is_terminal(self) -> bool {
        match self {
            RunStatus::NotStarted => false,
            RunStatus::InProgress => false,
            _ => true,
        }
    }
}

/// The terminal status that a classified process outcome maps to.
pub open spec fn spec_terminal_status(r: ComputationResult) -> RunStatus {
    match r {
        ComputationResult::Success(ms) => RunStatus::Done(Outcome::Success { millis: ms }),
        ComputationResult::Error(ms) => RunStatus::Done(Outcome::Failure { millis: ms }),
        ComputationResult::Timeout(_) => RunStatus::TimedOut,
    }
}

/// Maps a classified process outcome to the terminal status persisted for
/// the job.
pub fn terminal_status(r: ComputationResult) -> (s: RunStatus)
    ensures
        s == spec_terminal_status(r),
        s.is_terminal(),
{
    match r {
        ComputationResult::Success(ms) => RunStatus::Done(Outcome::Success { millis: ms }),
        ComputationResult::Error(ms) => RunStatus::Done(Outcome::Failure { millis: ms }),
        ComputationResult::Timeout(_) => RunStatus::TimedOut,
    }
}

/// The status recorded for job `j` in a store of markers: a job without a
/// marker (an index past the end) reads as `NotStarted`.
pub open spec fn spec_read(s: Seq<RunStatus>, j: int) -> RunStatus {
    if 0 <= j < s.len() {
        s[j]
    } else {
        RunStatus::NotStarted
    }
}

/// The store after re-admitting every job whose status equals `locked`:
/// those jobs return to `NotStarted`; every other job keeps its status.
pub open spec fn spec_unlock(s: Seq<RunStatus>, locked: RunStatus) -> Seq<RunStatus> {
    Seq::new(s.len(), |i: int| if s[i] == locked { RunStatus::NotStarted } else { s[i] })
}

/// Re-admission never rewrites a job held in a different status: `unlock`
/// of one status leaves every job in any other status untouched. In
/// particular a job read as `Done(_)` is never reset to `NotStarted` by
/// `unlock(InProgress)`, `unlock(TimedOut)` or `unlock(Failed)`.
pub proof fn lemma_unlock_preserves_others(s: Seq<RunStatus>, locked: RunStatus, j: int)
    requires
        0 <= j < s.len(),
        s[j] != locked,
    ensures
        spec_unlock(s, locked)[j] == s[j],
{
}

/// A job with a terminal `Done` outcome survives every re-admission pass a
/// resumed campaign may request: after unlocking `InProgress`, `TimedOut`
/// and `Failed` in any combination, the job still reads `Done` with the
/// same outcome.
pub proof fn lemma_done_survives_resumption(s: Seq<RunStatus>, locked: RunStatus, j: int)
    requires
        0 <= j < s.len(),
        s[j] matches RunStatus::Done(_),
        locked == RunStatus::InProgress || locked == RunStatus::TimedOut || locked
            == RunStatus::Failed,
    ensures
        spec_unlock(s, locked)[j] == s[j],
{
}

/// `unlock` is idempotent: applying it twice in a row with the same status
/// is the same as applying it once.
pub proof fn lemma_unlock_idempotent(s: Seq<RunStatus>, locked: RunStatus)
    ensures
        spec_unlock(spec_unlock(s, locked), locked) == spec_unlock(s, locked),
{
    let once = spec_unlock(s, locked);
    let twice = spec_unlock(once, locked);
    assert forall|i: int| 0 <= i < s.len() implies twice[i] == once[i] by {}
    assert(twice =~= once);
}

/// The durable per-job status store. Jobs are keyed by their index in the
/// campaign's job list; the marker for job `j` is `self@[j]`.
pub struct StatusStore {
    statuses: Vec<RunStatus>,
}

impl View for StatusStore {
    type V = Seq<RunStatus>;

    closed spec fn view(&self) -> Seq<RunStatus> {
        self.statuses@
    }
}

impl StatusStore {
    /// A fresh store for `n` jobs, none of them started.
    pub fn new(n: usize) -> (store: StatusStore)
        ensures
            store@.len() == n,
            forall|j: int| 0 <= j < n ==> store@[j] == RunStatus::NotStarted,
    {
        let mut statuses: Vec<RunStatus> = Vec::new();
        let mut i: usize = 0;
        while i < n
            invariant
                i <= n,
                statuses@.len() == i,
                forall|j: int| 0 <= j < i ==> statuses@[j] == RunStatus::NotStarted,
            decreases n - i,
        {
            statuses.push(RunStatus::NotStarted);
            i = i + 1;
        }
        StatusStore { statuses }
    }

    /// How many jobs the store tracks.
    pub fn len(&self) -> (n: usize)
        ensures
            n == self@.len(),
    {
        self.statuses.len()
    }

    /// Reads the persisted marker for a job; absence (an index past the
    /// end) means `NotStarted`.
    pub fn read(&self, job: usize) -> (s: RunStatus)
        ensures
            s == spec_read(self@, job as int),
    {
        if job < self.statuses.len() {
            self.statuses[job]
        } else {
            RunStatus::NotStarted
        }
    }

    /// Writes the marker for a job.
    pub fn transition(&mut self, job: usize, s: RunStatus)
        requires
            job < old(self)@.len(),
        ensures
            final(self)@ == old(self)@.update(job as int, s),
    {
        self.statuses.set(job, s);
    }

    /// The first job still waiting to be started, if any remains.
    pub fn first_not_started(&self) -> (r: Option<usize>)
        ensures
            r matches Some(j) ==> j < self@.len() && self@[j as int] == RunStatus::NotStarted
                && forall|t: int| 0 <= t < j ==> self@[t] != RunStatus::NotStarted,
            r is None ==> forall|j: int| 0 <= j < self@.len() ==> self@[j]
                != RunStatus::NotStarted,
    {
        let n = self.statuses.len();
        let mut j: usize = 0;
        while j < n
            invariant
                j <= n,
                n == self@.len(),
                forall|t: int| 0 <= t < j ==> self@[t] != RunStatus::NotStarted,
            decreases n - j,
        {
            if self.statuses[j] == RunStatus::NotStarted {
                return Some(j);
            }
            j = j + 1;
        }
        None
    }

    /// Resets every job currently in status `locked` back to `NotStarted`,
    /// touching no job in any other status.
    pub fn unlock(&mut self, locked: RunStatus)
        ensures
            final(self)@ == spec_unlock(old(self)@, locked),
    {
        let ghost orig = self.statuses@;
        let n = self.statuses.len();
        let mut i: usize = 0;
        while i < n
            invariant
                i <= n,
                n == orig.len(),
                self.statuses@.len() == orig.len(),
                forall|j: int|
                    0 <= j < i ==> self.statuses@[j] == spec_unlock(orig, locked)[j],
                forall|j: int| i <= j < n ==> self.statuses@[j] == orig[j],
            decreases n - i,
        {
            if self.statuses[i] == locked {
                self.statuses.set(i, RunStatus::NotStarted);
            }
            i = i + 1;
        }
        assert(self.statuses@ =~= spec_unlock(orig, locked));
    }
}

} // verus!
