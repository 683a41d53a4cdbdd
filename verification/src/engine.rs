//! The scheduler's core: jobs are claimed one at a time, each claim moving
//! a job from `NotStarted` to `InProgress`, and completed with a classified
//! result, which records the terminal status and appends one summary entry.
//! Workers of any pool width drive these two operations under a lock; the
//! contracts here make the bookkeeping correct for every interleaving.

use vstd::prelude::*;
use crate::aliases::{restore_str, spec_resolve, Aliases};
use crate::status::{
    spec_read, spec_terminal_status, spec_unlock, terminal_status, ComputationResult, RunStatus,
    StatusStore,
};

verus! {

/// One unit of the execution matrix: a stable identifier, the command
/// template to execute, and an optional per-job timeout override in
/// milliseconds.
#[derive(Clone, Debug)]
pub struct Job {
    pub id: String,
    pub command: String,
    pub timeout_millis: Option<u64>,
}

/// One summary entry: which job completed and with what classified result.
#[derive(Clone, Copy, PartialEq, Eq, Structural, Debug)]
pub struct SummaryEntry {
    pub job: usize,
    pub result: ComputationResult,
}

/// The per-campaign execution engine: the durable status store plus the
/// summary entries appended during this invocation. The baseline is the
/// store as scheduling began; jobs already terminal then are never touched
/// again, and every job completed during the run owns exactly one entry.
pub struct Engine {
    store: StatusStore,
    entries: Vec<SummaryEntry>,
    baseline: Ghost<Seq<RunStatus>>,
}

impl Engine {
    /// The current status of every job.
    pub closed spec fn statuses(&self) -> Seq<RunStatus> {
        self.store@
    }

    /// The summary entries appended so far, in completion order.
    pub closed spec fn rows(&self) -> Seq<SummaryEntry> {
        self.entries@
    }

    /// The statuses as scheduling began.
    pub closed spec fn baseline(&self) -> Seq<RunStatus> {
        self.baseline@
    }

    /// The engine's invariant: summary entries name real jobs, no job owns
    /// two entries, every entry's recorded status is the store's, a job
    /// already terminal at the baseline keeps its status, and every job
    /// that reached a terminal status during this run owns an entry.
    pub open spec fn wf(&self) -> bool {
        &&& self.baseline().len() == self.statuses().len()
        &&& forall|k: int|
            0 <= k < self.rows().len() ==> (#[trigger] self.rows()[k]).job
                < self.statuses().len()
        &&& forall|k1: int, k2: int|
            0 <= k1 < k2 < self.rows().len() ==> (#[trigger] self.rows()[k1]).job != (
            #[trigger] self.rows()[k2]).job
        &&& forall|k: int|
            0 <= k < self.rows().len() ==> self.statuses()[(#[trigger] self.rows()[k]).job as int]
                == spec_terminal_status(self.rows()[k].result) && !self.baseline()[self.rows()[k].job as int].is_terminal()
        &&& forall|j: int|
            0 <= j < self.statuses().len() && (#[trigger] self.baseline()[j]).is_terminal()
                ==> self.statuses()[j] == self.baseline()[j]
        &&& forall|j: int|
            0 <= j < self.statuses().len() && (#[trigger] self.statuses()[j]).is_terminal()
                && !self.baseline()[j].is_terminal() ==> exists|k: int|
                0 <= k < self.rows().len() && (#[trigger] self.rows()[k]).job == j
    }

    /// An engine over an existing status store, as a resumed campaign
    /// starts: whatever the store holds becomes the baseline.
    pub fn from_store(store: StatusStore) -> (e: Engine)
        ensures
            e.wf(),
            e.statuses() == store@,
            e.baseline() == store@,
            e.rows().len() == 0,
    {
        Engine { baseline: Ghost(store@), store, entries: Vec::new() }
    }

    /// A fresh engine for `n` jobs, none of them started.
    pub fn new(n: usize) -> (e: Engine)
        ensures
            e.wf(),
            e.statuses().len() == n,
            forall|j: int| 0 <= j < n ==> e.statuses()[j] == RunStatus::NotStarted,
            e.baseline() == e.statuses(),
            e.rows().len() == 0,
    {
        Engine::from_store(StatusStore::new(n))
    }

    /// How many jobs the engine tracks.
    pub fn job_count(&self) -> (n: usize)
        ensures
            n == self.statuses().len(),
    {
        self.store.len()
    }

    /// Reads one job's current status; an index past the end reads as
    /// `NotStarted`.
    pub fn read(&self, job: usize) -> (s: RunStatus)
        ensures
            s == spec_read(self.statuses(), job as int),
    {
        self.store.read(job)
    }

    /// How many summary entries have been appended.
    pub fn row_count(&self) -> (n: usize)
        ensures
            n == self.rows().len(),
    {
        self.entries.len()
    }

    /// One summary entry, in completion order.
    pub fn row(&self, k: usize) -> (r: SummaryEntry)
        requires
            k < self.rows().len(),
        ensures
            r == self.rows()[k as int],
    {
        self.entries[k]
    }

    /// Re-admits every job held in status `locked` before scheduling
    /// begins: those jobs return to `NotStarted` and the baseline moves
    /// with the store.
    pub fn unlock(&mut self, locked: RunStatus)
        requires
            old(self).wf(),
            old(self).rows().len() == 0,
        ensures
            final(self).wf(),
            final(self).statuses() == spec_unlock(old(self).statuses(), locked),
            final(self).baseline() == final(self).statuses(),
            final(self).rows().len() == 0,
    {
        self.store.unlock(locked);
        proof {
            self.baseline@ = self.store@;
        }
    }

    /// Applies the re-admission passes a resumed invocation requests, in
    /// the engine's fixed order: stuck `InProgress` jobs first, then
    /// `TimedOut`, then `Failed`.
    pub fn prepare_run(&mut self, with_in_progress: bool, with_timeout: bool, with_failure: bool)
        requires
            old(self).wf(),
            old(self).rows().len() == 0,
        ensures
            final(self).wf(),
            final(self).statuses() == spec_prepare(
                old(self).statuses(),
                with_in_progress,
                with_timeout,
                with_failure,
            ),
            final(self).baseline() == final(self).statuses(),
            final(self).rows().len() == 0,
    {
        if with_in_progress {
            self.unlock(RunStatus::InProgress);
        }
        if with_timeout {
            self.unlock(RunStatus::TimedOut);
        }
        if with_failure {
            self.unlock(RunStatus::Failed);
        }
        proof {
            self.baseline@ = self.store@;
        }
    }

    /// Claims the next schedulable job: the first one still `NotStarted`
    /// moves to `InProgress` and belongs to the calling worker alone.
    /// Nothing is claimed once an abort has been observed or when no job
    /// remains to start.
    #[verifier::rlimit(60)]
    pub fn claim(&mut self, aborted: bool) -> (r: Option<usize>)
        requires
            old(self).wf(),
        ensures
            final(self).wf(),
            final(self).baseline() == old(self).baseline(),
            final(self).rows() == old(self).rows(),
            r matches Some(j) ==> {
                &&& !aborted
                &&& j < old(self).statuses().len()
                &&& old(self).statuses()[j as int] == RunStatus::NotStarted
                &&& forall|t: int|
                    0 <= t < j ==> old(self).statuses()[t] != RunStatus::NotStarted
                &&& final(self).statuses() == old(self).statuses().update(
                    j as int,
                    RunStatus::InProgress,
                )
            },
            r is None ==> final(self).statuses() == old(self).statuses() && (aborted || forall|
                j: int,
            |
                0 <= j < old(self).statuses().len() ==> old(self).statuses()[j]
                    != RunStatus::NotStarted),
    {
        if aborted {
            return None;
        }
        match self.store.first_not_started() {
            Some(j) => {
                self.store.transition(j, RunStatus::InProgress);
                proof {
                    assert forall|k: int|
                        0 <= k < self.rows().len() implies self.statuses()[(
                    #[trigger] self.rows()[k]).job as int] == spec_terminal_status(
                        self.rows()[k].result,
                    ) && !self.baseline()[self.rows()[k].job as int].is_terminal() by {
                        assert(old(self).statuses()[self.rows()[k].job as int]
                            == spec_terminal_status(self.rows()[k].result));
                        assert(self.rows()[k].job != j);
                    }
                    if old(self).baseline()[j as int].is_terminal() {
                        assert(old(self).statuses()[j as int] == old(self).baseline()[j as int]);
                    }
                }
                Some(j)
            },
            None => None,
        }
    }

    /// Records the terminal status a claimed job reached and appends its
    /// summary entry. Only a job previously claimed (`InProgress`) can
    /// complete, so no job is recorded twice.
    #[verifier::rlimit(60)]
    pub fn complete(&mut self, job: usize, result: ComputationResult)
        requires
            old(self).wf(),
            job < old(self).statuses().len(),
            old(self).statuses()[job as int] == RunStatus::InProgress,
        ensures
            final(self).wf(),
            final(self).baseline() == old(self).baseline(),
            final(self).statuses() == old(self).statuses().update(
                job as int,
                spec_terminal_status(result),
            ),
            final(self).rows() == old(self).rows().push(SummaryEntry { job, result }),
    {
        proof {
            if old(self).baseline()[job as int].is_terminal() {
                assert(old(self).statuses()[job as int] == old(self).baseline()[job as int]);
            }
        }
        let status = terminal_status(result);
        self.store.transition(job, status);
        self.entries.push(SummaryEntry { job, result });
        proof {
            let oldrows = old(self).rows();
            let nlen = self.rows().len();
            assert(self.rows()[nlen - 1] == SummaryEntry { job, result });
            assert forall|k: int|
                0 <= k < nlen implies self.statuses()[(#[trigger] self.rows()[k]).job as int]
                == spec_terminal_status(self.rows()[k].result) && !self.baseline()[self.rows()[k].job as int].is_terminal() by {
                if k < nlen - 1 {
                    assert(old(self).statuses()[(self.rows()[k]).job as int]
                        == spec_terminal_status(self.rows()[k].result));
                    assert(self.rows()[k].job != job);
                }
            }
            assert forall|k1: int, k2: int|
                0 <= k1 < k2 < nlen implies (#[trigger] self.rows()[k1]).job != (
            #[trigger] self.rows()[k2]).job by {
                if k2 == nlen - 1 {
                    assert(old(self).statuses()[oldrows[k1].job as int] == spec_terminal_status(
                        oldrows[k1].result,
                    ));
                    assert(oldrows[k1].job != job);
                }
            }
            assert forall|t: int|
                0 <= t < self.statuses().len() && (#[trigger] self.statuses()[t]).is_terminal()
                    && !self.baseline()[t].is_terminal() implies exists|k: int|
                0 <= k < nlen && (#[trigger] self.rows()[k]).job == t by {
                if t == job {
                    assert(self.rows()[nlen - 1].job == t);
                } else {
                    let k = choose|k: int|
                        0 <= k < oldrows.len() && (#[trigger] oldrows[k]).job == t;
                    assert(self.rows()[k].job == t);
                }
            }
        }
    }
}

impl Engine {
    /// The jobs the scheduler will admit, in ascending order: every job
    /// whose status is still `NotStarted` after the re-admission passes.
    pub fn pending_jobs(&self) -> (r: Vec<usize>)
        ensures
            forall|k1: int, k2: int| 0 <= k1 < k2 < r@.len() ==> r@[k1] < r@[k2],
            forall|k: int|
                0 <= k < r@.len() ==> (#[trigger] r@[k]) < self.statuses().len()
                    && self.statuses()[r@[k] as int] == RunStatus::NotStarted,
            forall|j: int|
                0 <= j < self.statuses().len() && self.statuses()[j] == RunStatus::NotStarted
                    ==> exists|k: int| 0 <= k < r@.len() && (#[trigger] r@[k]) as int == j,
    {
        let n = self.store.len();
        let mut r: Vec<usize> = Vec::new();
        let mut j: usize = 0;
        while j < n
            invariant
                j <= n,
                n == self.statuses().len(),
                forall|k1: int, k2: int| 0 <= k1 < k2 < r@.len() ==> r@[k1] < r@[k2],
                forall|k: int|
                    0 <= k < r@.len() ==> (#[trigger] r@[k]) < j && self.statuses()[r@[k] as int]
                        == RunStatus::NotStarted,
                forall|t: int|
                    0 <= t < j && self.statuses()[t] == RunStatus::NotStarted ==> exists|k: int|
                        0 <= k < r@.len() && (#[trigger] r@[k]) as int == t,
            decreases n - j,
        {
            if self.store.read(j) == RunStatus::NotStarted {
                let ghost oldr = r@;
                r.push(j);
                proof {
                    assert(r@[oldr.len() as int] == j);
                    assert forall|t: int|
                        0 <= t < j + 1 && self.statuses()[t] == RunStatus::NotStarted implies exists|
                        k: int,
                    | 0 <= k < r@.len() && (#[trigger] r@[k]) as int == t by {
                        if t < j {
                            let k = choose|k: int|
                                0 <= k < oldr.len() && (#[trigger] oldr[k]) as int == t;
                            assert(r@[k] as int == t);
                        } else {
                            assert(r@[oldr.len() as int] as int == t);
                        }
                    }
                }
            }
            j = j + 1;
        }
        r
    }
}

/// Pre-flight validation of the job matrix: the first job whose command
/// template cannot be resolved (a cyclic alias definition), if any.
/// Configuration errors must surface before any job is scheduled: while
/// this returns a job, nothing may run.
pub fn first_unresolvable_job(jobs: &Vec<Job>, shortcuts: &Aliases) -> (r: Option<usize>)
    requires
        shortcuts.wf(),
    ensures
        r matches Some(j) ==> j < jobs@.len() && spec_resolve(
            jobs@[j as int].command@,
            shortcuts@,
            shortcuts@.len(),
        ) is None && forall|t: int|
            0 <= t < j ==> spec_resolve(
                (#[trigger] jobs@[t]).command@,
                shortcuts@,
                shortcuts@.len(),
            ) is Some,
        r is None ==> forall|t: int|
            0 <= t < jobs@.len() ==> spec_resolve(
                (#[trigger] jobs@[t]).command@,
                shortcuts@,
                shortcuts@.len(),
            ) is Some,
{
    let n = jobs.len();
    let mut j: usize = 0;
    while j < n
        invariant
            j <= n,
            n == jobs@.len(),
            shortcuts.wf(),
            forall|t: int|
                0 <= t < j ==> spec_resolve(
                    (#[trigger] jobs@[t]).command@,
                    shortcuts@,
                    shortcuts@.len(),
                ) is Some,
        decreases n - j,
    {
        match restore_str(jobs[j].command.as_str(), shortcuts) {
            Ok(_) => {
            },
            Err(_) => {
                return Some(j);
            },
        }
        j = j + 1;
    }
    None
}

/// Law: a campaign run to the end produces exactly one summary entry per
/// job, whatever the pool width. Starting from a baseline with no job yet
/// terminal, once every job has reached a terminal status the summary
/// holds one entry per job: as many entries as jobs, no job twice, and
/// each entry recording exactly the status its job holds.
pub proof fn lemma_finished_run_rows(e: &Engine)
    requires
        e.wf(),
        forall|j: int|
            0 <= j < e.baseline().len() ==> !(#[trigger] e.baseline()[j]).is_terminal(),
        forall|j: int| 0 <= j < e.statuses().len() ==> (#[trigger] e.statuses()[j]).is_terminal(),
    ensures
        e.rows().len() == e.statuses().len(),
        forall|k1: int, k2: int|
            0 <= k1 < k2 < e.rows().len() ==> (#[trigger] e.rows()[k1]).job != (
            #[trigger] e.rows()[k2]).job,
        forall|k: int|
            0 <= k < e.rows().len() ==> e.statuses()[(#[trigger] e.rows()[k]).job as int]
                == spec_terminal_status(e.rows()[k].result),
{
    let n = e.statuses().len() as int;
    let jobs = Seq::new(e.rows().len(), |k: int| e.rows()[k].job as int);
    assert(jobs.no_duplicates());
    jobs.unique_seq_to_set();
    assert forall|a: int| jobs.to_set().contains(a) implies vstd::set_lib::set_int_range(
        0,
        n,
    ).contains(a) by {
        let k = choose|k: int| 0 <= k < jobs.len() && jobs[k] == a;
        assert(e.rows()[k].job < n);
    }
    assert forall|a: int| vstd::set_lib::set_int_range(0, n).contains(a) implies jobs.to_set().contains(
        a,
    ) by {
        assert(e.statuses()[a].is_terminal());
        assert(!e.baseline()[a].is_terminal());
        let k = choose|k: int| 0 <= k < e.rows().len() && (#[trigger] e.rows()[k]).job == a;
        assert(jobs[k] == a);
        assert(jobs.contains(a));
    }
    assert(jobs.to_set() =~= vstd::set_lib::set_int_range(0, n));
    vstd::set_lib::lemma_int_range(0, n);
}

/// Law: the pool width and the order in which workers finish never change
/// what a job's terminal status is. Two finished runs over the same
/// baseline whose summaries record the same completions — each entry of
/// one appearing in the other — leave every job with the same status,
/// though the entries' order may differ.
pub proof fn lemma_statuses_determined_by_outcomes(a: &Engine, b: &Engine)
    requires
        a.wf(),
        b.wf(),
        a.baseline() == b.baseline(),
        forall|j: int| 0 <= j < a.statuses().len() ==> (#[trigger] a.statuses()[j]).is_terminal(),
        forall|j: int| 0 <= j < b.statuses().len() ==> (#[trigger] b.statuses()[j]).is_terminal(),
        forall|k: int| 0 <= k < a.rows().len() ==> b.rows().contains(#[trigger] a.rows()[k]),
        forall|k: int| 0 <= k < b.rows().len() ==> a.rows().contains(#[trigger] b.rows()[k]),
    ensures
        a.statuses() == b.statuses(),
{
    let n = a.statuses().len() as int;
    assert forall|j: int| 0 <= j < n implies a.statuses()[j] == b.statuses()[j] by {
        if a.baseline()[j].is_terminal() {
            assert(a.statuses()[j] == a.baseline()[j]);
            assert(b.statuses()[j] == b.baseline()[j]);
        } else {
            assert(a.statuses()[j].is_terminal());
            let k = choose|k: int| 0 <= k < a.rows().len() && (#[trigger] a.rows()[k]).job == j;
            assert(a.statuses()[j] == spec_terminal_status(a.rows()[k].result));
            assert(b.rows().contains(a.rows()[k]));
            let k2 = choose|k2: int|
                0 <= k2 < b.rows().len() && b.rows()[k2] == a.rows()[k];
            assert(b.rows()[k2].job == j);
            assert(b.statuses()[j] == spec_terminal_status(b.rows()[k2].result));
        }
    }
    assert(a.statuses() =~= b.statuses());
}

/// Law: re-admission never touches a finished job. Whatever combination
/// of passes a resumed invocation requests, a job read `Done` keeps its
/// recorded outcome.
pub proof fn lemma_prepare_preserves_done(
    s: Seq<RunStatus>,
    with_in_progress: bool,
    with_timeout: bool,
    with_failure: bool,
    j: int,
)
    requires
        0 <= j < s.len(),
        s[j] matches RunStatus::Done(_),
    ensures
        spec_prepare(s, with_in_progress, with_timeout, with_failure).len() == s.len(),
        spec_prepare(s, with_in_progress, with_timeout, with_failure)[j] == s[j],
{
}

/// The statuses after the re-admission passes a resumed invocation may
/// request, applied in the engine's fixed order.
pub open spec fn spec_prepare(
    s: Seq<RunStatus>,
    with_in_progress: bool,
    with_timeout: bool,
    with_failure: bool,
) -> Seq<RunStatus> {
    let s1 = if with_in_progress {
        spec_unlock(s, RunStatus::InProgress)
    } else {
        s
    };
    let s2 = if with_timeout {
        spec_unlock(s1, RunStatus::TimedOut)
    } else {
        s1
    };
    if with_failure {
        spec_unlock(s2, RunStatus::Failed)
    } else {
        s2
    }
}

} // verus!
