//! The process runner's decisions: which timeout binds a job, how a
//! finished or expired wait is classified, and the registry of live child
//! process identifiers that the interrupt handler's kill fan-out targets.

use vstd::prelude::*;
use crate::status::ComputationResult;

verus! {

/// The timeout that binds one job: its own override where set, else the
/// campaign's global bound, else none.
pub fn effective_timeout(job_timeout: Option<u64>, global_timeout: Option<u64>) -> (r: Option<
    u64,
>)
    ensures
        r == (if job_timeout is Some {
            job_timeout
        } else {
            global_timeout
        }),
{
    match job_timeout {
        Some(t) => Some(t),
        None => global_timeout,
    }
}

/// Classifies an execution that ran to its natural exit: success on a
/// clean zero exit, error otherwise, both carrying the elapsed time.
pub fn classify_exit(success: bool, elapsed_millis: u64) -> (r: ComputationResult)
    ensures
        r == (if success {
            ComputationResult::Success(elapsed_millis)
        } else {
            ComputationResult::Error(elapsed_millis)
        }),
{
    if success {
        ComputationResult::Success(elapsed_millis)
    } else {
        ComputationResult::Error(elapsed_millis)
    }
}

/// Classifies what a wait bounded by a timeout observed: a process that
/// exited within the bound is classified by its exit status; expiry of
/// the bound is always a timeout, carrying the bound itself rather than
/// the elapsed time.
pub fn classify_timed_exit(exit_success: Option<bool>, elapsed_millis: u64, timeout_millis: u64)
    -> (r: ComputationResult)
    ensures
        exit_success matches Some(success) ==> r == (if success {
            ComputationResult::Success(elapsed_millis)
        } else {
            ComputationResult::Error(elapsed_millis)
        }),
        exit_success is None ==> r == ComputationResult::Timeout(timeout_millis),
{
    match exit_success {
        Some(success) => classify_exit(success, elapsed_millis),
        None => ComputationResult::Timeout(timeout_millis),
    }
}

/// The set of live child process identifiers. Workers register a child
/// right after spawning it and deregister it on every exit path; the
/// interrupt handler snapshots the set and kills every listed process.
/// The caller serializes access (the engine shares it behind a lock).
pub struct ChildRegistry {
    pids: Vec<u32>,
}

impl View for ChildRegistry {
    type V = Set<u32>;

    closed spec fn view(&self) -> Set<u32> {
        self.pids@.to_set()
    }
}

impl ChildRegistry {
    /// Well-formedness: no identifier is listed twice.
    pub closed spec fn wf(&self) -> bool {
        self.pids@.no_duplicates()
    }

    /// An empty registry.
    pub fn new() -> (r: ChildRegistry)
        ensures
            r@ == Set::<u32>::empty(),
            r.wf(),
    {
        let r = ChildRegistry { pids: Vec::new() };
        proof {
            assert(r.pids@.to_set() =~= Set::<u32>::empty());
        }
        r
    }

    /// Whether the identifier is currently registered.
    pub fn contains(&self, pid: u32) -> (r: bool)
        ensures
            r == self@.contains(pid),
    {
        let n = self.pids.len();
        let mut i: usize = 0;
        while i < n
            invariant
                i <= n,
                n == self.pids@.len(),
                forall|j: int| 0 <= j < i ==> self.pids@[j] != pid,
            decreases n - i,
        {
            if self.pids[i] == pid {
                assert(self.pids@.contains(pid));
                return true;
            }
            i = i + 1;
        }
        assert(!self.pids@.contains(pid));
        false
    }

    /// Registers a freshly spawned child. Registering an identifier that
    /// is already present leaves the set as it is.
    pub fn register(&mut self, pid: u32)
        requires
            old(self).wf(),
        ensures
            final(self).wf(),
            final(self)@ == old(self)@.insert(pid),
    {
        if !self.contains(pid) {
            let ghost oldpids = self.pids@;
            self.pids.push(pid);
            proof {
                assert(self.pids@[oldpids.len() as int] == pid);
                assert(self.pids@.contains(pid));
                assert forall|a: u32| self.pids@.contains(a) <==> oldpids.to_set().insert(
                    pid,
                ).contains(a) by {
                    if oldpids.contains(a) {
                        let j = choose|j: int| 0 <= j < oldpids.len() && oldpids[j] == a;
                        assert(self.pids@[j] == a);
                        assert(self.pids@.contains(a));
                    }
                    if self.pids@.contains(a) {
                        let j = choose|j: int| 0 <= j < self.pids@.len() && self.pids@[j] == a;
                        if j < oldpids.len() {
                            assert(oldpids[j] == a);
                            assert(oldpids.contains(a));
                        } else {
                            assert(a == pid);
                        }
                    }
                }
                assert(self.pids@.to_set() =~= oldpids.to_set().insert(pid));
            }
        } else {
            proof {
                assert(self@.insert(pid) =~= self@);
            }
        }
    }

    /// Deregisters a child that has been reaped. Deregistering an absent
    /// identifier leaves the set as it is.
    pub fn deregister(&mut self, pid: u32)
        requires
            old(self).wf(),
        ensures
            final(self).wf(),
            final(self)@ == old(self)@.remove(pid),
    {
        let ghost orig = self.pids@;
        let n = self.pids.len();
        let mut out: Vec<u32> = Vec::new();
        let mut i: usize = 0;
        while i < n
            invariant
                i <= n,
                n == orig.len(),
                self.pids@ == orig,
                orig.no_duplicates(),
                out@.no_duplicates(),
                forall|j: int|
                    0 <= j < out@.len() ==> orig.contains(#[trigger] out@[j]) && out@[j] != pid,
                forall|j: int|
                    0 <= j < i ==> (orig[j] == pid || out@.contains(#[trigger] orig[j])),
                forall|j: int| 0 <= j < out@.len() ==> exists|t: int|
                    0 <= t < i && orig[t] == #[trigger] out@[j],
            decreases n - i,
        {
            let v = self.pids[i];
            if v != pid {
                let ghost oldout = out@;
                proof {
                    if oldout.contains(v) {
                        let j = choose|j: int| 0 <= j < oldout.len() && oldout[j] == v;
                        let t = choose|t: int| 0 <= t < i && orig[t] == oldout[j];
                        assert(orig[t] == orig[i as int]);
                    }
                }
                out.push(v);
                proof {
                    assert(out@[oldout.len() as int] == v);
                    assert forall|j: int| 0 <= j <= i implies (orig[j] == pid || out@.contains(
                        #[trigger] orig[j],
                    )) by {
                        if orig[j] != pid {
                            if j < i {
                                assert(oldout.contains(orig[j]));
                                let t = choose|t: int|
                                    0 <= t < oldout.len() && oldout[t] == orig[j];
                                assert(out@[t] == orig[j]);
                            } else {
                                assert(out@[oldout.len() as int] == orig[j]);
                            }
                            assert(out@.contains(orig[j]));
                        }
                    }
                }
            }
            i = i + 1;
        }
        self.pids = out;
        proof {
            assert forall|a: u32| self.pids@.contains(a) <==> (orig.to_set().contains(a) && a
                != pid) by {
                if self.pids@.contains(a) {
                    let j = choose|j: int| 0 <= j < self.pids@.len() && self.pids@[j] == a;
                }
                if orig.contains(a) && a != pid {
                    let j = choose|j: int| 0 <= j < orig.len() && orig[j] == a;
                    assert(orig[j] == pid || self.pids@.contains(orig[j]));
                }
            }
            assert(self.pids@.to_set() =~= orig.to_set().remove(pid));
        }
    }

    /// A snapshot of every registered identifier, for the interrupt
    /// handler's kill fan-out.
    pub fn snapshot(&self) -> (r: Vec<u32>)
        ensures
            r@.to_set() == self@,
    {
        let n = self.pids.len();
        let mut r: Vec<u32> = Vec::new();
        let mut i: usize = 0;
        while i < n
            invariant
                i <= n,
                n == self.pids@.len(),
                r@ == self.pids@.subrange(0, i as int),
            decreases n - i,
        {
            r.push(self.pids[i]);
            assert(r@ =~= self.pids@.subrange(0, i + 1));
            i = i + 1;
        }
        proof {
            assert(r@ =~= self.pids@);
        }
        r
    }
}

} // verus!
