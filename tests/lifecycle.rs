use ir::err_pipe::ErrPipeRead;
use ir::fd::{
    create_fd, preallocation, Access, Action, Allocated, ChildStep, Harvest, ParentSetup, Prealloc, Stage,
};
use ir::fdio::write_str;
use ir::procs::{Procs, WaitInfo};
use ir::res::{exit_status, FdRes, Res, Rusage, Timeval};
use ir::run::{collect, deliver, next_step, Step};
use ir::sel::{ReaderId, Select};
use ir::spec::{CaptureFormat, CaptureMode, Fd as FdSpec, OpenFlag};

fn usage() -> Rusage {
    let t = Timeval { tv_sec: 0, tv_usec: 10 };
    Rusage {
        ru_utime: t,
        ru_stime: t,
        ru_maxrss: 0,
        ru_ixrss: 0,
        ru_idrss: 0,
        ru_isrss: 0,
        ru_minflt: 0,
        ru_majflt: 0,
        ru_nswap: 0,
        ru_inblock: 0,
        ru_oublock: 0,
        ru_msgsnd: 0,
        ru_msgrcv: 0,
        ru_nsignals: 0,
        ru_nvcsw: 0,
        ru_nivcsw: 0,
    }
}

fn info(pid: i32, status: i32) -> WaitInfo {
    (pid, status, usage())
}

fn memory(format: CaptureFormat) -> FdSpec {
    FdSpec::Capture { mode: CaptureMode::Memory, format }
}

#[test]
fn preallocation_by_kind() {
    assert_eq!(preallocation(&FdSpec::Inherit), Prealloc::Nothing);
    assert_eq!(preallocation(&FdSpec::Null { flags: OpenFlag::Default }), Prealloc::Nothing);
    assert_eq!(preallocation(&memory(CaptureFormat::Text)), Prealloc::Pipe);
    assert_eq!(
        preallocation(&FdSpec::Capture { mode: CaptureMode::TempFile, format: CaptureFormat::Base64 }),
        Prealloc::TempFile
    );
}

#[test]
fn child_plans() {
    let mut a = create_fd(1, &FdSpec::Null { flags: OpenFlag::Default }, Allocated::Nothing);
    match a.set_up_in_child().as_slice() {
        [ChildStep::Open { path, oflags, mode, target }] => {
            assert_eq!(path, "/dev/null");
            assert_eq!(oflags.access, Access::WriteOnly);
            assert_eq!(*mode, 0);
            assert_eq!(*target, 1);
        }
        other => panic!("unexpected {:?}", other),
    }
    assert_eq!(a.stage, Stage::SetUpInChild);
    let spec = FdSpec::File { path: "out.txt".to_string(), flags: OpenFlag::Read, mode: 0o640 };
    let mut a = create_fd(0, &spec, Allocated::Nothing);
    match a.set_up_in_child().as_slice() {
        [ChildStep::Open { path, oflags, mode, target }] => {
            assert_eq!(path, "out.txt");
            assert_eq!(oflags.access, Access::ReadOnly);
            assert_eq!(*mode, 0o640);
            assert_eq!(*target, 0);
        }
        other => panic!("unexpected {:?}", other),
    }
    let mut a = create_fd(2, &FdSpec::Dup { fd: 1 }, Allocated::Nothing);
    assert!(matches!(a.set_up_in_child().as_slice(), [ChildStep::Dup2 { from: 1, to: 2 }]));
    let mut a = create_fd(4, &FdSpec::Close, Allocated::Nothing);
    assert!(matches!(a.set_up_in_child().as_slice(), [ChildStep::Close { fd: 4 }]));
    let mut a = create_fd(4, &FdSpec::Inherit, Allocated::Nothing);
    assert!(a.set_up_in_child().is_empty());
    let spec = FdSpec::Capture { mode: CaptureMode::TempFile, format: CaptureFormat::Text };
    let mut a = create_fd(1, &spec, Allocated::TempFile(9));
    assert!(matches!(
        a.set_up_in_child().as_slice(),
        [ChildStep::Dup2 { from: 9, to: 1 }, ChildStep::Close { fd: 9 }]
    ));
    assert!(matches!(a.action, Action::TempFileCapture { tmp_fd: -1, .. }));
    let mut a = create_fd(1, &memory(CaptureFormat::Text), Allocated::Pipe(5, 6));
    assert!(matches!(
        a.set_up_in_child().as_slice(),
        [ChildStep::Close { fd: 5 }, ChildStep::Dup2 { from: 6, to: 1 }]
    ));
}

#[test]
fn memory_capture_collects_every_chunk() {
    let mut a = create_fd(1, &memory(CaptureFormat::Text), Allocated::Pipe(5, 6));
    assert_eq!(a.set_up_in_parent(), ParentSetup { close: Some(6), reader: Some(5) });
    assert_eq!(a.stage, Stage::Running);
    assert!(!a.read(b"caf"));
    assert!(!a.read(&[0xc3]));
    assert!(!a.read(&[0xa9, 0xff]));
    assert!(a.read(&[]));
    match a.clean_up_in_parent(Harvest::Nothing) {
        Ok(Some(FdRes::CaptureUtf8 { text })) => assert_eq!(text, "café\u{FFFD}"),
        other => panic!("unexpected {:?}", other),
    }
    let mut a = create_fd(1, &memory(CaptureFormat::Text), Allocated::Pipe(5, 6));
    a.set_up_in_parent();
    assert!(a.read(&[]));
    match a.clean_up_in_parent(Harvest::Nothing) {
        Ok(Some(FdRes::CaptureUtf8 { text })) => assert_eq!(text, ""),
        other => panic!("unexpected {:?}", other),
    }
}

#[test]
fn temp_file_capture_in_base64() {
    let spec = FdSpec::Capture { mode: CaptureMode::TempFile, format: CaptureFormat::Base64 };
    let mut a = create_fd(1, &spec, Allocated::TempFile(8));
    assert_eq!(a.set_up_in_parent(), ParentSetup { close: None, reader: None });
    assert_eq!(a.harvest_fd(), Some(8));
    let content = vec![0u8, 0, 7, 0, 255];
    match a.clean_up_in_parent(Harvest::Bytes(content.clone())) {
        Ok(Some(FdRes::CaptureBase64 { data, encoding })) => {
            assert_eq!(encoding, "base64");
            assert_eq!(base64::decode_config(&data, base64::STANDARD_NO_PAD).unwrap(), content);
        }
        other => panic!("unexpected {:?}", other),
    }
    let mut a = create_fd(1, &spec, Allocated::TempFile(8));
    a.set_up_in_parent();
    match a.clean_up_in_parent(Harvest::Failed("Bad file descriptor".to_string())) {
        Err(e) => assert_eq!(e, "Bad file descriptor"),
        other => panic!("unexpected {:?}", other),
    }
}

#[test]
fn file_and_inherit_results() {
    let spec = FdSpec::File { path: "log".to_string(), flags: OpenFlag::Default, mode: 0o666 };
    let mut a = create_fd(3, &spec, Allocated::Nothing);
    a.set_up_in_parent();
    assert_eq!(a.harvest_fd(), None);
    match a.clean_up_in_parent(Harvest::Nothing) {
        Ok(Some(FdRes::File { path })) => assert_eq!(path, "log"),
        other => panic!("unexpected {:?}", other),
    }
    let mut a = create_fd(0, &FdSpec::Inherit, Allocated::Nothing);
    a.set_up_in_parent();
    assert!(matches!(a.clean_up_in_parent(Harvest::Nothing), Ok(None)));
}

#[test]
fn results_follow_declaration_order() {
    let mut procs = Procs::new();
    procs.push(200);
    procs.push(100);
    // The second process terminates first.
    procs.reap(info(100, 3 << 8)).unwrap();
    procs.reap(info(200, 15)).unwrap();
    let mut out = create_fd(1, &memory(CaptureFormat::Text), Allocated::Pipe(5, 6));
    out.set_up_in_parent();
    out.read(b"hi");
    out.read(&[]);
    let tmp_spec = FdSpec::Capture { mode: CaptureMode::TempFile, format: CaptureFormat::Text };
    let mut tmp = create_fd(2, &tmp_spec, Allocated::TempFile(8));
    tmp.set_up_in_parent();
    let mut inh = create_fd(0, &FdSpec::Inherit, Allocated::Nothing);
    inh.set_up_in_parent();
    let fds = vec![vec![out, tmp], vec![inh]];
    let harvests = vec![vec![Harvest::Nothing, Harvest::Failed("Bad file descriptor".to_string())], vec![Harvest::Nothing]];
    let mut start = Res::new();
    start.errors.push("failed to set up fd 3: x".to_string());
    let r = collect(start, procs.into_vec(), fds, harvests, vec!["exec: nope: missing".to_string()]);
    assert_eq!(r.procs.len(), 2);
    assert_eq!(r.procs[0].pid, 200);
    assert_eq!(r.procs[0].signum, Some(15));
    assert_eq!(r.procs[1].pid, 100);
    assert_eq!(r.procs[1].exit_code, Some(3));
    assert_eq!(r.procs[0].fds.len(), 2);
    assert_eq!(r.procs[0].fds[0].0, "stdout");
    assert!(matches!(&r.procs[0].fds[0].1, FdRes::CaptureUtf8 { text } if text == "hi"));
    assert_eq!(r.procs[0].fds[1].0, "stderr");
    assert!(matches!(r.procs[0].fds[1].1, FdRes::Error));
    assert!(r.procs[1].fds.is_empty());
    assert_eq!(
        r.errors,
        vec![
            "failed to set up fd 3: x".to_string(),
            "failed to clean up fd 2: Bad file descriptor".to_string(),
            "exec: nope: missing".to_string(),
        ]
    );
    assert_eq!(exit_status(&r), 1);
}

#[test]
fn missing_program_is_reported() {
    // The child could not exec: it sends a message and exits with the
    // distinguished OS-error status.
    let mut channel = ErrPipeRead::new(3);
    let mut bytes = Vec::new();
    write_str(&mut bytes, "exec: /no/such/program: No such file or directory (os error 2)");
    channel.read(&bytes).unwrap();
    assert_eq!(channel.read(&[]), Ok(true));
    let mut procs = Procs::new();
    procs.push(42);
    procs.reap(info(42, 71 << 8)).unwrap();
    let r = collect(Res::new(), procs.into_vec(), vec![vec![]], vec![vec![]], channel.get_errors());
    assert_eq!(r.procs.len(), 1);
    assert_eq!(r.procs[0].exit_code, Some(71));
    assert!(r.errors.iter().any(|e| e.starts_with("exec: /no/such/program")));
    assert_ne!(exit_status(&r), 0);
}

#[test]
fn loop_steps() {
    assert_eq!(next_step(Step::Start, true, false), Step::ReapAny);
    assert_eq!(next_step(Step::ReapAny, true, false), Step::Poll);
    assert_eq!(next_step(Step::ReapAny, false, false), Step::ReapAll);
    assert_eq!(next_step(Step::Poll, true, true), Step::ReapAny);
    assert_eq!(next_step(Step::Poll, true, false), Step::Poll);
    assert_eq!(next_step(Step::Poll, false, false), Step::ReapAll);
    assert_eq!(next_step(Step::ReapAll, false, true), Step::Done);
}

/// Drives the supervisor over two simulated children: one writes `total`
/// bytes through a captured pipe of `capacity` bytes, then exits; the other
/// exits at once.  `writer_first` says which one the OS reports first.
fn simulate(total: usize, capacity: usize, writer_first: bool) -> Res {
    let (writer, quick) = (300, 301);
    let mut procs = Procs::new();
    procs.push(writer);
    procs.push(quick);
    let mut out = create_fd(1, &memory(CaptureFormat::Base64), Allocated::Pipe(5, 6));
    let mut sel = Select::new();
    let setup = out.set_up_in_parent();
    sel.insert_reader(setup.reader.unwrap(), ReaderId::Capture { proc: 0, action: 0 });
    let mut written = 0usize;
    let mut in_pipe = 0usize;
    let mut writer_done = false;
    let mut quick_done = false;
    let mut latch = false;
    let mut step = Step::Start;
    let mut rounds = 0;
    loop {
        rounds += 1;
        assert!(rounds < 100_000, "no progress");
        // The children run: the writer fills the pipe as far as it can.
        let room = capacity - in_pipe;
        let n = room.min(total - written);
        written += n;
        in_pipe += n;
        if written == total && !writer_done && (writer_first || quick_done) {
            writer_done = true;
            latch = true;
        }
        if !quick_done && (!writer_first || writer_done) {
            quick_done = true;
            latch = true;
        }
        step = next_step(step, sel.any(), latch);
        match step {
            Step::ReapAny | Step::ReapAll => {
                latch = false;
                let mut reaped = Vec::new();
                if writer_done {
                    reaped.push(writer);
                }
                if quick_done {
                    reaped.push(quick);
                }
                for pid in reaped {
                    let _ = procs.reap(info(pid, 0));
                }
                if step == Step::ReapAll {
                    assert!(writer_done && quick_done, "blocking reap would deadlock");
                }
            }
            Step::Poll => {
                for (fd, _) in sel.ready_readers(&[5]) {
                    let chunk = vec![b'x'; in_pipe.min(1024)];
                    in_pipe -= chunk.len();
                    let eof = chunk.is_empty() && writer_done;
                    if !chunk.is_empty() || eof {
                        if out.read(&chunk) {
                            sel.remove_reader(fd);
                        }
                    }
                }
            }
            Step::Done => break,
            Step::Start => unreachable!(),
        }
    }
    assert_eq!(procs.num_running(), 0);
    let fds = vec![vec![out], vec![]];
    collect(Res::new(), procs.into_vec(), fds, vec![vec![Harvest::Nothing], vec![]], Vec::new())
}

#[test]
fn large_capture_does_not_deadlock_either_order() {
    for writer_first in [true, false] {
        let r = simulate(1 << 20, 65536, writer_first);
        assert_eq!(r.procs.len(), 2);
        assert_eq!(r.procs[0].pid, 300);
        assert_eq!(r.procs[1].pid, 301);
        match &r.procs[0].fds[0].1 {
            FdRes::CaptureBase64 { data, .. } => {
                let bytes = base64::decode_config(data, base64::STANDARD_NO_PAD).unwrap();
                assert_eq!(bytes.len(), 1 << 20);
            }
            other => panic!("unexpected {:?}", other),
        }
        assert!(r.errors.is_empty());
    }
}

#[test]
fn deliver_routes_and_unregisters() {
    let mut sel = Select::new();
    let mut channel = ErrPipeRead::new(3);
    sel.insert_reader(3, ReaderId::ErrPipe);
    let mut out = create_fd(1, &memory(CaptureFormat::Text), Allocated::Pipe(5, 6));
    out.set_up_in_parent();
    let mut fds = vec![vec![out]];
    sel.insert_reader(5, ReaderId::Capture { proc: 0, action: 0 });
    let mut frame = Vec::new();
    write_str(&mut frame, "boom");
    assert_eq!(deliver(&mut sel, &mut channel, &mut fds, 3, ReaderId::ErrPipe, &frame), Ok(false));
    let capture = ReaderId::Capture { proc: 0, action: 0 };
    assert_eq!(deliver(&mut sel, &mut channel, &mut fds, 5, capture, b"ab"), Ok(false));
    assert_eq!(deliver(&mut sel, &mut channel, &mut fds, 5, capture, b"c"), Ok(false));
    assert_eq!(deliver(&mut sel, &mut channel, &mut fds, 5, capture, b""), Ok(true));
    let mut left = sel.read_fds();
    left.sort();
    assert_eq!(left, vec![3]);
    assert_eq!(deliver(&mut sel, &mut channel, &mut fds, 3, ReaderId::ErrPipe, b""), Ok(true));
    assert!(!sel.any());
    match &fds[0][0].action {
        Action::MemoryCapture(m) => assert_eq!(m.buf, b"abc".to_vec()),
        other => panic!("unexpected {:?}", other),
    }
    assert_eq!(channel.get_errors(), vec!["boom".to_string()]);
}
