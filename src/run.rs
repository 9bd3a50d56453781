//! The supervisor's decisions: the order of reaping and multiplexing, and the
//! assembly of the run's result in declaration order.

use crate::err_pipe::views;
use crate::fd::{
    clean_up_spec, fd_name_spec, get_fd_name, harvest_fits, int_to_string, res_view, CleanUp, Fd,
    FdResView, Harvest, Stage,
};
use crate::err_pipe::{read_spec, ChannelError, ErrPipeRead};
use crate::fd::capture_read_spec;
use crate::procs::{Proc, WaitInfo, reap_spec, lemma_reap_once, ReapError};
use crate::sel::{ReaderId, Select};
use crate::res::{core_dump_of, exit_code_of, signum_of, FdRes, ProcRes, Res};
use crate::fd::decimal;
use vstd::prelude::*;
use vstd::string::StringExecFns;

verus! {

// ---------------------------------------------------------------------------
// The event loop
// ---------------------------------------------------------------------------

/// One step of the supervisor's loop.
#[derive(Clone, Copy, Debug, PartialEq, Eq, Structural)]
pub enum Step {
    /// Nothing done yet.
    Start,
    /// Reap every child that already terminated, without blocking.
    ReapAny,
    /// Wait for readiness of the registered descriptors and service them.
    Poll,
    /// Block until every remaining child is reaped.
    ReapAll,
    /// All children are reaped and all streams drained.
    Done,
}

pub open spec fn next_step_spec(last: Step, pending: bool, latch_fired: bool) -> Step {
    match last {
        Step::Start => Step::ReapAny,
        Step::ReapAny => if pending {
            Step::Poll
        } else {
            Step::ReapAll
        },
        Step::Poll => if latch_fired {
            Step::ReapAny
        } else if pending {
            Step::Poll
        } else {
            Step::ReapAll
        },
        Step::ReapAll => Step::Done,
        Step::Done => Step::Done,
    }
}

/// The step after `last`, given whether descriptors are still registered
/// with the multiplexer and whether the child-termination latch fired since
/// the last step.
///
/// The loop never blocks on reaping while a stream is still registered, so a
/// child blocked writing to a full capture pipe cannot deadlock with a parent
/// blocked in a wait; and it never polls an empty set.
pub fn next_step(last: Step, pending: bool, latch_fired: bool) -> (r: Step)
    ensures
        r == next_step_spec(last, pending, latch_fired),
        r == Step::ReapAll ==> !pending,
        r == Step::Poll ==> pending,
{
    match last {
        Step::Start => Step::ReapAny,
        Step::ReapAny => if pending {
            Step::Poll
        } else {
            Step::ReapAll
        },
        Step::Poll => if latch_fired {
            Step::ReapAny
        } else if pending {
            Step::Poll
        } else {
            Step::ReapAll
        },
        Step::ReapAll => Step::Done,
        Step::Done => Step::Done,
    }
}

/// Once the multiplexer holds no descriptor, the loop reaches the blocking
/// reap within two steps from any step, whatever the latch reports; and from
/// the blocking reap it is done.
pub proof fn lemma_loop_drains(last: Step, l1: bool, l2: bool)
    ensures
        ({
            let s1 = next_step_spec(last, false, l1);
            let s2 = next_step_spec(s1, false, l2);
            &&& s1 == Step::ReapAll || s2 == Step::ReapAll || s1 == Step::Done || s2 == Step::Done
            &&& next_step_spec(Step::ReapAll, false, l1) == Step::Done
        }),
{
}

// ---------------------------------------------------------------------------
// Reaping in any order
// ---------------------------------------------------------------------------

/// The table after reaping `infos` in turn, or the first refusal.
pub open spec fn reap_all_spec(s: Seq<Proc>, infos: Seq<WaitInfo>) -> Result<Seq<Proc>, ReapError>
    decreases infos.len(),
{
    if infos.len() == 0 {
        Ok(s)
    } else {
        match reap_all_spec(s, infos.drop_last()) {
            Ok(t) => reap_spec(t, infos.last()),
            Err(e) => Err(e),
        }
    }
}

/// Whatever order children terminate in, reaping them keeps every process at
/// its place in declaration order.
pub proof fn lemma_reap_order_kept(s: Seq<Proc>, infos: Seq<WaitInfo>)
    requires
        reap_all_spec(s, infos) is Ok,
    ensures
        reap_all_spec(s, infos)->Ok_0.len() == s.len(),
        forall|i: int| 0 <= i < s.len() ==> (#[trigger] reap_all_spec(s, infos)->Ok_0[i]).pid == s[i].pid,
    decreases infos.len(),
{
    if infos.len() > 0 {
        lemma_reap_order_kept(s, infos.drop_last());
        let t = reap_all_spec(s, infos.drop_last())->Ok_0;
        lemma_reap_once(t, infos.last());
        let u = reap_all_spec(s, infos)->Ok_0;
        assert forall|i: int| 0 <= i < s.len() implies (#[trigger] u[i]).pid == s[i].pid by {
            assert(t[i].pid == s[i].pid);
        }
    }
}

// ---------------------------------------------------------------------------
// Result assembly
// ---------------------------------------------------------------------------

pub open spec fn cleanup_error_message(fd: i32, err: Seq<char>) -> Seq<char> {
    "failed to clean up fd "@ + decimal(fd as int) + ": "@ + err
}

/// The descriptor entries that cleaning up `a` with `h` adds to a process's
/// result.
pub open spec fn entry_of(a: Fd, h: Harvest) -> Seq<(Seq<char>, FdResView)> {
    match clean_up_spec(a, h) {
        CleanUp::Skip => Seq::empty(),
        CleanUp::Entry(v) => seq![(fd_name_spec(a.fd), v)],
        CleanUp::Fail(m) => seq![(fd_name_spec(a.fd), FdResView::Error)],
    }
}

/// The run-level errors that cleaning up `a` with `h` records.
pub open spec fn error_of(a: Fd, h: Harvest) -> Seq<Seq<char>> {
    match clean_up_spec(a, h) {
        CleanUp::Fail(m) => seq![cleanup_error_message(a.fd, m)],
        _ => Seq::empty(),
    }
}

pub open spec fn entries_spec(a: Seq<Fd>, h: Seq<Harvest>) -> Seq<(Seq<char>, FdResView)>
    decreases a.len(),
{
    if a.len() == 0 || h.len() == 0 {
        Seq::empty()
    } else {
        entries_spec(a.drop_last(), h.drop_last()) + entry_of(a.last(), h.last())
    }
}

pub open spec fn errors_spec(a: Seq<Fd>, h: Seq<Harvest>) -> Seq<Seq<char>>
    decreases a.len(),
{
    if a.len() == 0 || h.len() == 0 {
        Seq::empty()
    } else {
        errors_spec(a.drop_last(), h.drop_last()) + error_of(a.last(), h.last())
    }
}

pub open spec fn fds_view(s: Seq<(String, FdRes)>) -> Seq<(Seq<char>, FdResView)> {
    s.map_values(|p: (String, FdRes)| (p.0@, res_view(p.1)))
}

/// Whether descriptor actions are ready to be cleaned up with harvests.
pub open spec fn cleanable(a: Seq<Fd>, h: Seq<Harvest>) -> bool {
    &&& a.len() == h.len()
    &&& forall|j: int| 0 <= j < a.len() ==> (#[trigger] a[j]).stage == Stage::Running && harvest_fits(a[j], h[j])
}

/// Whether `r` reports process `p`, which was reaped.
pub open spec fn reports(r: ProcRes, p: Proc) -> bool {
    let info = p.wait_info->Some_0;
    &&& r.pid == p.pid
    &&& r.status == info.1
    &&& r.exit_code == exit_code_of(info.1)
    &&& r.signum == signum_of(info.1)
    &&& r.core_dump == core_dump_of(info.1)
    &&& r.rusage == info.2
}

/// Builds the result of one reaped process: its status, and the outcome of
/// cleaning up each of its descriptors in declaration order.  Cleanup errors
/// are appended to `errors` and the descriptor is marked as failed.
pub fn proc_result(proc: Proc, fds: Vec<Fd>, harvests: Vec<Harvest>, errors: &mut Vec<String>) -> (r: ProcRes)
    requires
        proc.wait_info is Some,
        cleanable(fds@, harvests@),
    ensures
        reports(r, proc),
        fds_view(r.fds@) == entries_spec(fds@, harvests@),
        views(final(errors)@) == views(old(errors)@) + errors_spec(fds@, harvests@),
{
    let info = proc.wait_info.unwrap();
    let mut result = ProcRes::new(proc.pid, info.1, info.2);
    let ghost a0 = fds@;
    let ghost h0 = harvests@;
    let ghost e0 = views(errors@);
    let mut fds = fds;
    let mut harvests = harvests;
    let n = fds.len();
    let mut k: usize = 0;
    assert(a0.subrange(0, 0) =~= Seq::<Fd>::empty());
    assert(h0.subrange(0, 0) =~= Seq::<Harvest>::empty());
    assert(fds_view(result.fds@) =~= Seq::<(Seq<char>, FdResView)>::empty());
    assert(views(errors@) =~= e0 + Seq::<Seq<char>>::empty());
    while k < n
        invariant
            n == a0.len(),
            a0.len() == h0.len(),
            k <= n,
            fds@ == a0.subrange(k as int, n as int),
            harvests@ == h0.subrange(k as int, n as int),
            cleanable(a0, h0),
            reports(result, proc),
            fds_view(result.fds@) == entries_spec(a0.subrange(0, k as int), h0.subrange(0, k as int)),
            views(errors@) == e0 + errors_spec(a0.subrange(0, k as int), h0.subrange(0, k as int)),
        decreases n - k,
    {
        let a = fds.remove(0);
        let h = harvests.remove(0);
        assert(a == a0[k as int]);
        assert(h == h0[k as int]);
        let ghost spec_a = a;
        let ghost spec_h = h;
        let fd = a.get_fd();
        let name = get_fd_name(fd);
        let ghost old_fds = result.fds@;
        let ghost old_errs = errors@;
        let outcome = a.clean_up_in_parent(h);
        match outcome {
            Ok(Some(x)) => {
                result.fds.push((name, x));
            },
            Ok(None) => {},
            Err(e) => {
                result.fds.push((name, FdRes::Error));
                let mut msg = String::from_str("failed to clean up fd ");
                let num = int_to_string(fd);
                msg.append(num.as_str());
                msg.append(": ");
                msg.append(e.as_str());
                errors.push(msg);
            },
        }
        proof {
            let ak = a0.subrange(0, k + 1);
            let hk = h0.subrange(0, k + 1);
            assert(ak.drop_last() =~= a0.subrange(0, k as int));
            assert(hk.drop_last() =~= h0.subrange(0, k as int));
            assert(ak.last() == spec_a);
            assert(hk.last() == spec_h);
            assert(fds_view(result.fds@) =~= fds_view(old_fds) + entry_of(spec_a, spec_h));
            assert(views(errors@) =~= views(old_errs) + error_of(spec_a, spec_h));
            assert(fds@ =~= a0.subrange(k + 1, n as int));
            assert(harvests@ =~= h0.subrange(k + 1, n as int));
        }
        k = k + 1;
    }
    assert(a0.subrange(0, n as int) =~= a0);
    assert(h0.subrange(0, n as int) =~= h0);
    result
}

/// The run-level errors that cleaning up every process records, process by
/// process.
pub open spec fn all_errors_spec(a: Seq<Vec<Fd>>, h: Seq<Vec<Harvest>>) -> Seq<Seq<char>>
    decreases a.len(),
{
    if a.len() == 0 || h.len() == 0 {
        Seq::empty()
    } else {
        all_errors_spec(a.drop_last(), h.drop_last()) + errors_spec(a.last()@, h.last()@)
    }
}

/// Assembles the run's result once every child is reaped and every stream
/// drained: one process result per spawned process, in spawn order, then the
/// cleanup errors, then the messages of the error channel.
pub fn collect(
    result: Res,
    procs: Vec<Proc>,
    fds: Vec<Vec<Fd>>,
    harvests: Vec<Vec<Harvest>>,
    pipe_errors: Vec<String>,
) -> (r: Res)
    requires
        procs@.len() == fds@.len(),
        fds@.len() == harvests@.len(),
        forall|i: int| 0 <= i < procs@.len() ==> (#[trigger] procs@[i]).wait_info is Some,
        forall|i: int| 0 <= i < fds@.len() ==> cleanable((#[trigger] fds@[i])@, harvests@[i]@),
    ensures
        r.procs@.len() == result.procs@.len() + procs@.len(),
        forall|i: int| 0 <= i < result.procs@.len() ==> r.procs@[i] == result.procs@[i],
        forall|i: int|
            0 <= i < procs@.len() ==> {
                let pr = #[trigger] r.procs@[result.procs@.len() + i];
                &&& reports(pr, procs@[i])
                &&& fds_view(pr.fds@) == entries_spec(fds@[i]@, harvests@[i]@)
            },
        views(r.errors@) == views(result.errors@) + all_errors_spec(fds@, harvests@) + views(pipe_errors@),
{
    let mut result = result;
    let ghost r0 = result;
    let ghost p0 = procs@;
    let ghost a0 = fds@;
    let ghost h0 = harvests@;
    let mut procs = procs;
    let mut fds = fds;
    let mut harvests = harvests;
    let n = procs.len();
    let base = result.procs.len();
    let mut k: usize = 0;
    assert(a0.subrange(0, 0) =~= Seq::<Vec<Fd>>::empty());
    assert(h0.subrange(0, 0) =~= Seq::<Vec<Harvest>>::empty());
    assert(views(result.errors@) =~= views(r0.errors@) + Seq::<Seq<char>>::empty());
    while k < n
        invariant
            n == p0.len(),
            p0.len() == a0.len(),
            a0.len() == h0.len(),
            k <= n,
            base == r0.procs@.len(),
            procs@ == p0.subrange(k as int, n as int),
            fds@ == a0.subrange(k as int, n as int),
            harvests@ == h0.subrange(k as int, n as int),
            forall|i: int| 0 <= i < p0.len() ==> (#[trigger] p0[i]).wait_info is Some,
            forall|i: int| 0 <= i < a0.len() ==> cleanable((#[trigger] a0[i])@, h0[i]@),
            result.procs@.len() == base + k,
            forall|i: int| 0 <= i < base ==> result.procs@[i] == r0.procs@[i],
            forall|i: int|
                0 <= i < k ==> {
                    let pr = #[trigger] result.procs@[base + i];
                    &&& reports(pr, p0[i])
                    &&& fds_view(pr.fds@) == entries_spec(a0[i]@, h0[i]@)
                },
            views(result.errors@) == views(r0.errors@) + all_errors_spec(
                a0.subrange(0, k as int),
                h0.subrange(0, k as int),
            ),
        decreases n - k,
    {
        let p = procs.remove(0);
        let a = fds.remove(0);
        let h = harvests.remove(0);
        assert(p == p0[k as int]);
        assert(a == a0[k as int]);
        assert(h == h0[k as int]);
        let ghost old_procs = result.procs@;
        let ghost old_errs = views(result.errors@);
        let pr = proc_result(p, a, h, &mut result.errors);
        result.procs.push(pr);
        proof {
            let ak = a0.subrange(0, k + 1);
            let hk = h0.subrange(0, k + 1);
            assert(ak.drop_last() =~= a0.subrange(0, k as int));
            assert(hk.drop_last() =~= h0.subrange(0, k as int));
            assert(ak.last() == a0[k as int]);
            assert(hk.last() == h0[k as int]);
            assert(views(result.errors@) =~= views(r0.errors@) + all_errors_spec(ak, hk));
            assert(procs@ =~= p0.subrange(k + 1, n as int));
            assert(fds@ =~= a0.subrange(k + 1, n as int));
            assert(harvests@ =~= h0.subrange(k + 1, n as int));
            assert forall|i: int| 0 <= i < k + 1 implies {
                let pr = #[trigger] result.procs@[base + i];
                &&& reports(pr, p0[i])
                &&& fds_view(pr.fds@) == entries_spec(a0[i]@, h0[i]@)
            } by {
                if i < k {
                    assert(result.procs@[base + i] == old_procs[base + i]);
                }
            }
        }
        k = k + 1;
    }
    assert(a0.subrange(0, n as int) =~= a0);
    assert(h0.subrange(0, n as int) =~= h0);
    let ghost before = result.errors@;
    let ghost pe = pipe_errors@;
    let mut pipe_errors = pipe_errors;
    result.errors.append(&mut pipe_errors);
    assert(result.errors@ =~= before + pe);
    assert(views(result.errors@) =~= views(before) + views(pe));
    result
}

// ---------------------------------------------------------------------------
// Multiplexing
// ---------------------------------------------------------------------------

/// Hands the bytes of one read of a ready descriptor to the accumulator it
/// feeds, and unregisters the descriptor at the end of its stream.  No bytes
/// mean the end of the stream.  Returns whether the stream ended.
pub fn deliver(
    select: &mut Select,
    err_read: &mut ErrPipeRead,
    fds: &mut Vec<Vec<Fd>>,
    fd: i32,
    reader: ReaderId,
    chunk: &[u8],
) -> (r: Result<bool, ChannelError>)
    requires
        old(select).wf(),
        old(err_read).wf(),
        reader matches ReaderId::Capture { proc, action } ==> proc < old(fds)@.len() && action
            < old(fds)@[proc as int]@.len() && old(fds)@[proc as int]@[action as int].action is MemoryCapture,
    ensures
        final(select).wf(),
        match reader {
            ReaderId::ErrPipe => read_spec(*old(err_read), *final(err_read), chunk@, r) && final(fds)@
                == old(fds)@,
            ReaderId::Capture { proc, action } => {
                &&& *final(err_read) == *old(err_read)
                &&& r == Ok::<bool, ChannelError>(chunk@.len() == 0)
                &&& final(fds)@.len() == old(fds)@.len()
                &&& forall|i: int| 0 <= i < old(fds)@.len() && i != proc ==> #[trigger] final(fds)@[i] == old(fds)@[i]
                &&& final(fds)@[proc as int]@.len() == old(fds)@[proc as int]@.len()
                &&& forall|j: int| 0 <= j < old(fds)@[proc as int]@.len() && j != action ==> #[trigger] final(fds)@[proc as int]@[j] == old(fds)@[proc as int]@[j]
                &&& capture_read_spec(old(fds)@[proc as int]@[action as int], final(fds)@[proc as int]@[action as int], chunk@)
            },
        },
        r == Ok::<bool, ChannelError>(true) ==> final(select)@ == old(select)@.remove(fd),
        r != Ok::<bool, ChannelError>(true) ==> final(select)@ == old(select)@,
{
    let r = match reader {
        ReaderId::ErrPipe => err_read.read(chunk),
        ReaderId::Capture { proc, action } => {
            let mut inner: Vec<Fd> = Vec::new();
            std::mem::swap(&mut inner, &mut fds[proc]);
            let done = inner[action].read(chunk);
            std::mem::swap(&mut inner, &mut fds[proc]);
            Ok(done)
        },
    };
    match r {
        Ok(true) => {
            select.remove_reader(fd);
        },
        _ => {},
    }
    r
}

} // verus!
