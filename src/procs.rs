//! The process table: spawned pids, in spawn order, and their reap records.

use crate::res::Rusage;
use vstd::prelude::*;

verus! {

/// What one reap reports: pid, wait status, resource usage.
pub type WaitInfo = (i32, i32, Rusage);

/// What one wait call returned.
#[derive(Clone, Copy, Debug)]
pub enum WaitOutcome {
    /// A child terminated and was collected.
    Reaped(WaitInfo),
    /// A non-blocking call found no terminated child.
    NoneReady,
    /// The call was interrupted by a signal.
    Interrupted,
    /// The call failed with this OS error number.
    Failed(i32),
}

/// A wait call that breaks the contract the reap loop relies on.
#[derive(Clone, Copy, Debug, PartialEq, Eq, Structural)]
pub enum WaitFault {
    /// A blocking call returned without a child.
    EmptyBlockingResult,
    /// The call failed with this OS error number.
    Failed(i32),
}

/// What to do after a wait call.
#[derive(Clone, Copy, Debug)]
pub enum WaitStep {
    /// Stop waiting; a child was collected, or none is ready.
    Done(Option<WaitInfo>),
    /// Call again.
    Retry,
    /// Give up: the operating system broke the contract.
    Fatal(WaitFault),
}

pub open spec fn wait_spec(block: bool, outcome: WaitOutcome) -> WaitStep {
    match outcome {
        WaitOutcome::Reaped(info) => WaitStep::Done(Some(info)),
        WaitOutcome::NoneReady => if block {
            WaitStep::Fatal(WaitFault::EmptyBlockingResult)
        } else {
            WaitStep::Done(None)
        },
        WaitOutcome::Interrupted => if block {
            WaitStep::Retry
        } else {
            WaitStep::Done(None)
        },
        WaitOutcome::Failed(e) => WaitStep::Fatal(WaitFault::Failed(e)),
    }
}

/// Decides what follows a wait call.  An interrupted blocking wait is tried
/// again; an interrupted non-blocking one returns, so that the caller may
/// service other events.
pub fn wait(block: bool, outcome: WaitOutcome) -> (r: WaitStep)
    ensures
        r == wait_spec(block, outcome),
{
    match outcome {
        WaitOutcome::Reaped(info) => WaitStep::Done(Some(info)),
        WaitOutcome::NoneReady => if block {
            WaitStep::Fatal(WaitFault::EmptyBlockingResult)
        } else {
            WaitStep::Done(None)
        },
        WaitOutcome::Interrupted => if block {
            WaitStep::Retry
        } else {
            WaitStep::Done(None)
        },
        WaitOutcome::Failed(e) => WaitStep::Fatal(WaitFault::Failed(e)),
    }
}

/// A process we run, or that has terminated.
#[derive(Clone, Copy, Debug)]
pub struct Proc {
    pub pid: i32,
    /// `None` while the process runs; its reap record once it terminated.
    pub wait_info: Option<WaitInfo>,
}

/// A reap that contradicts the process table.
#[derive(Clone, Copy, Debug, PartialEq, Eq, Structural)]
pub enum ReapError {
    /// The reaped pid is not one we spawned.
    UnexpectedPid(i32),
    /// The pid was reaped already.
    DoubleReap(i32),
    /// A blocking wait returned no pid.
    EmptyBlockingWait,
}

/// The number of entries still running.
pub open spec fn running_count(s: Seq<Proc>) -> nat
    decreases s.len(),
{
    if s.len() == 0 {
        0
    } else {
        running_count(s.drop_last()) + if s.last().wait_info is None {
            1nat
        } else {
            0nat
        }
    }
}

/// The first entry with `pid`, or the length of `s` when there is none.
pub open spec fn find_pid(s: Seq<Proc>, pid: i32) -> int
    decreases s.len(),
{
    if s.len() == 0 {
        0
    } else if s[0].pid == pid {
        0
    } else {
        1 + find_pid(s.drop_first(), pid)
    }
}

/// The table after reaping `info`, or why the reap is refused.
pub open spec fn reap_spec(s: Seq<Proc>, info: WaitInfo) -> Result<Seq<Proc>, ReapError> {
    let i = find_pid(s, info.0);
    if i >= s.len() {
        Err(ReapError::UnexpectedPid(info.0))
    } else if s[i].wait_info is Some {
        Err(ReapError::DoubleReap(info.0))
    } else {
        Ok(s.update(i, Proc { pid: info.0, wait_info: Some(info) }))
    }
}

proof fn lemma_find_pid(s: Seq<Proc>, pid: i32)
    ensures
        0 <= find_pid(s, pid) <= s.len(),
        find_pid(s, pid) < s.len() ==> s[find_pid(s, pid)].pid == pid,
        forall|j: int| 0 <= j < find_pid(s, pid) ==> (#[trigger] s[j]).pid != pid,
    decreases s.len(),
{
    if s.len() > 0 && s[0].pid != pid {
        lemma_find_pid(s.drop_first(), pid);
        assert forall|j: int| 0 <= j < find_pid(s, pid) implies (#[trigger] s[j]).pid != pid by {
            if j > 0 {
                assert(s[j] == s.drop_first()[j - 1]);
            }
        }
    }
}

proof fn lemma_find_pid_same_pids(s: Seq<Proc>, t: Seq<Proc>, pid: i32)
    requires
        s.len() == t.len(),
        forall|j: int| 0 <= j < s.len() ==> (#[trigger] s[j]).pid == t[j].pid,
    ensures
        find_pid(s, pid) == find_pid(t, pid),
    decreases s.len(),
{
    if s.len() > 0 && s[0].pid != pid {
        assert forall|j: int| 0 <= j < s.drop_first().len() implies (#[trigger] s.drop_first()[j]).pid
            == t.drop_first()[j].pid by {
            assert(s.drop_first()[j] == s[j + 1]);
            assert(t.drop_first()[j] == t[j + 1]);
        }
        lemma_find_pid_same_pids(s.drop_first(), t.drop_first(), pid);
    }
}

proof fn lemma_running_count_update(s: Seq<Proc>, i: int, p: Proc)
    requires
        0 <= i < s.len(),
        s[i].wait_info is None,
        p.wait_info is Some,
    ensures
        running_count(s.update(i, p)) + 1 == running_count(s),
    decreases s.len(),
{
    let t = s.update(i, p);
    if i == s.len() - 1 {
        assert(t.drop_last() =~= s.drop_last());
    } else {
        assert(t.drop_last() =~= s.drop_last().update(i, p));
        lemma_running_count_update(s.drop_last(), i, p);
    }
}

proof fn lemma_running_count_push(s: Seq<Proc>, p: Proc)
    ensures
        running_count(s.push(p)) == running_count(s) + if p.wait_info is None {
            1nat
        } else {
            0nat
        },
{
    assert(s.push(p).drop_last() =~= s);
}

proof fn lemma_running_count_bound(s: Seq<Proc>)
    ensures
        running_count(s) <= s.len(),
    decreases s.len(),
{
    if s.len() > 0 {
        lemma_running_count_bound(s.drop_last());
    }
}

/// A successful reap keeps every pid in its place, marks that pid reaped, and
/// leaves one process fewer running; reaping the same pid again is refused as
/// a double reap.
pub proof fn lemma_reap_once(s: Seq<Proc>, info: WaitInfo)
    requires
        reap_spec(s, info) is Ok,
    ensures
        ({
            let t = reap_spec(s, info)->Ok_0;
            &&& t.len() == s.len()
            &&& forall|j: int| 0 <= j < s.len() ==> (#[trigger] t[j]).pid == s[j].pid
            &&& running_count(t) + 1 == running_count(s)
            &&& reap_spec(t, info) == Err::<Seq<Proc>, ReapError>(ReapError::DoubleReap(info.0))
        }),
{
    lemma_find_pid(s, info.0);
    let i = find_pid(s, info.0);
    let t = reap_spec(s, info)->Ok_0;
    lemma_running_count_update(s, i, Proc { pid: info.0, wait_info: Some(info) });
    assert forall|j: int| 0 <= j < s.len() implies (#[trigger] t[j]).pid == s[j].pid by {}
    lemma_find_pid_same_pids(s, t, info.0);
}

/// The process table.
pub struct Procs {
    procs: Vec<Proc>,
    num_running: usize,
}

impl Procs {
    /// The entries, in spawn order.
    pub closed spec fn view(&self) -> Seq<Proc> {
        self.procs@
    }

    pub closed spec fn wf(&self) -> bool {
        self.num_running == running_count(self.procs@)
    }

    pub fn new() -> (r: Procs)
        ensures
            r.wf(),
            r.view() == Seq::<Proc>::empty(),
    {
        Procs { procs: Vec::new(), num_running: 0 }
    }

    /// Records a newly spawned process.
    pub fn push(&mut self, pid: i32)
        requires
            old(self).wf(),
            old(self).view().len() < usize::MAX,
        ensures
            final(self).wf(),
            final(self).view() == old(self).view().push(Proc { pid, wait_info: None }),
    {
        proof {
            lemma_running_count_bound(self.procs@);
            lemma_running_count_push(self.procs@, Proc { pid, wait_info: None });
        }
        self.procs.push(Proc { pid, wait_info: None });
        self.num_running = self.num_running + 1;
    }

    /// How many processes have not been reaped yet.
    pub fn num_running(&self) -> (r: usize)
        requires
            self.wf(),
        ensures
            r == running_count(self.view()),
    {
        self.num_running
    }

    /// Records that `info`'s pid terminated.
    pub fn reap(&mut self, info: WaitInfo) -> (r: Result<(), ReapError>)
        requires
            old(self).wf(),
        ensures
            final(self).wf(),
            match reap_spec(old(self).view(), info) {
                Ok(t) => r is Ok && final(self).view() == t,
                Err(e) => r == Err::<(), ReapError>(e) && final(self).view() == old(self).view(),
            },
    {
        let pid = info.0;
        let mut i: usize = 0;
        proof {
            lemma_find_pid(self.procs@, pid);
        }
        while i < self.procs.len()
            invariant
                i <= self.procs@.len(),
                i <= find_pid(self.procs@, pid),
                0 <= find_pid(self.procs@, pid) <= self.procs@.len(),
                find_pid(self.procs@, pid) < self.procs@.len() ==> self.procs@[find_pid(self.procs@, pid)].pid == pid,
                forall|j: int| 0 <= j < find_pid(self.procs@, pid) ==> (#[trigger] self.procs@[j]).pid != pid,
            ensures
                i <= find_pid(self.procs@, pid),
                i < self.procs@.len() ==> self.procs@[i as int].pid == pid,
                i >= self.procs@.len() ==> find_pid(self.procs@, pid) == self.procs@.len(),
            decreases self.procs@.len() - i,
        {
            if self.procs[i].pid == pid {
                break;
            }
            i = i + 1;
        }
        if i >= self.procs.len() {
            return Err(ReapError::UnexpectedPid(pid));
        }
        assert(i == find_pid(self.procs@, pid));
        if self.procs[i].wait_info.is_some() {
            return Err(ReapError::DoubleReap(pid));
        }
        proof {
            lemma_running_count_update(self.procs@, i as int, Proc { pid, wait_info: Some(info) });
            lemma_running_count_bound(self.procs@);
        }
        self.procs.set(i, Proc { pid, wait_info: Some(info) });
        self.num_running = self.num_running - 1;
        Ok(())
    }

    /// Takes the result of one wait: a reaped child, or none.  Returns whether
    /// to keep waiting.
    pub fn wait(&mut self, block: bool, got: Option<WaitInfo>) -> (r: Result<bool, ReapError>)
        requires
            old(self).wf(),
        ensures
            final(self).wf(),
            match got {
                Some(info) => match reap_spec(old(self).view(), info) {
                    Ok(t) => r == Ok::<bool, ReapError>(true) && final(self).view() == t,
                    Err(e) => r == Err::<bool, ReapError>(e) && final(self).view() == old(self).view(),
                },
                None => final(self).view() == old(self).view() && if block {
                    r == Err::<bool, ReapError>(ReapError::EmptyBlockingWait)
                } else {
                    r == Ok::<bool, ReapError>(false)
                },
            },
    {
        match got {
            Some(info) => match self.reap(info) {
                Ok(()) => Ok(true),
                Err(e) => Err(e),
            },
            None => if block {
                Err(ReapError::EmptyBlockingWait)
            } else {
                Ok(false)
            },
        }
    }

    /// The entries, in spawn order.
    pub fn into_vec(self) -> (r: Vec<Proc>)
        ensures
            r@ == self.view(),
    {
        self.procs
    }
}

} // verus!

