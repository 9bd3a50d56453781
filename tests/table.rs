use ir::procs::{wait, Procs, ReapError, WaitFault, WaitInfo, WaitOutcome, WaitStep};
use ir::res::{Rusage, Timeval};
use ir::sel::{ReaderId, Select};

fn usage() -> Rusage {
    let t = Timeval { tv_sec: 0, tv_usec: 0 };
    Rusage {
        ru_utime: t,
        ru_stime: t,
        ru_maxrss: 0,
        ru_ixrss: 0,
        ru_idrss: 0,
        ru_isrss: 0,
        ru_minflt: 0,
        ru_majflt: 0,
        ru_nswap: 0,
        ru_inblock: 0,
        ru_oublock: 0,
        ru_msgsnd: 0,
        ru_msgrcv: 0,
        ru_nsignals: 0,
        ru_nvcsw: 0,
        ru_nivcsw: 0,
    }
}

fn info(pid: i32, status: i32) -> WaitInfo {
    (pid, status, usage())
}

#[test]
fn wait_decisions() {
    assert!(matches!(wait(true, WaitOutcome::Reaped(info(5, 0))), WaitStep::Done(Some((5, 0, _)))));
    assert!(matches!(wait(false, WaitOutcome::Reaped(info(5, 0))), WaitStep::Done(Some((5, 0, _)))));
    assert!(matches!(wait(false, WaitOutcome::NoneReady), WaitStep::Done(None)));
    assert!(matches!(
        wait(true, WaitOutcome::NoneReady),
        WaitStep::Fatal(WaitFault::EmptyBlockingResult)
    ));
    assert!(matches!(wait(true, WaitOutcome::Interrupted), WaitStep::Retry));
    assert!(matches!(wait(false, WaitOutcome::Interrupted), WaitStep::Done(None)));
    assert!(matches!(wait(true, WaitOutcome::Failed(10)), WaitStep::Fatal(WaitFault::Failed(10))));
}

#[test]
fn reaping_keeps_declaration_order() {
    let mut procs = Procs::new();
    procs.push(30);
    procs.push(10);
    procs.push(20);
    assert_eq!(procs.num_running(), 3);
    assert_eq!(procs.reap(info(20, 2 << 8)), Ok(()));
    assert_eq!(procs.reap(info(30, 0)), Ok(()));
    assert_eq!(procs.num_running(), 1);
    assert_eq!(procs.wait(true, Some(info(10, 9))), Ok(true));
    assert_eq!(procs.num_running(), 0);
    let v = procs.into_vec();
    let pids: Vec<i32> = v.iter().map(|p| p.pid).collect();
    assert_eq!(pids, vec![30, 10, 20]);
    assert_eq!(v[0].wait_info.unwrap().1, 0);
    assert_eq!(v[1].wait_info.unwrap().1, 9);
    assert_eq!(v[2].wait_info.unwrap().1, 2 << 8);
}

#[test]
fn double_and_unexpected_reaps_are_refused() {
    let mut procs = Procs::new();
    procs.push(4);
    assert_eq!(procs.reap(info(4, 0)), Ok(()));
    assert_eq!(procs.reap(info(4, 0)), Err(ReapError::DoubleReap(4)));
    assert_eq!(procs.reap(info(5, 0)), Err(ReapError::UnexpectedPid(5)));
    assert_eq!(procs.num_running(), 0);
}

#[test]
fn empty_waits() {
    let mut procs = Procs::new();
    procs.push(4);
    assert_eq!(procs.wait(false, None), Ok(false));
    assert_eq!(procs.wait(true, None), Err(ReapError::EmptyBlockingWait));
    assert_eq!(procs.num_running(), 1);
}

#[test]
fn registry_insert_remove_ready() {
    let mut sel = Select::new();
    assert!(!sel.any());
    sel.insert_reader(7, ReaderId::ErrPipe);
    sel.insert_reader(9, ReaderId::Capture { proc: 0, action: 1 });
    sel.insert_reader(11, ReaderId::Capture { proc: 1, action: 0 });
    assert!(sel.any());
    let mut fds = sel.read_fds();
    fds.sort();
    assert_eq!(fds, vec![7, 9, 11]);
    let mut ready = sel.ready_readers(&[11, 7, 3]);
    ready.sort_by_key(|p| p.0);
    assert_eq!(ready, vec![(7, ReaderId::ErrPipe), (11, ReaderId::Capture { proc: 1, action: 0 })]);
    sel.insert_reader(9, ReaderId::ErrPipe);
    assert_eq!(sel.remove_reader(9), Some(ReaderId::ErrPipe));
    assert_eq!(sel.remove_reader(9), None);
    assert_eq!(sel.remove_reader(7), Some(ReaderId::ErrPipe));
    assert_eq!(sel.remove_reader(11), Some(ReaderId::Capture { proc: 1, action: 0 }));
    assert!(!sel.any());
}
