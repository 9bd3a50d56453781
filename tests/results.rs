use ir::res::{exit_status, FdRes, ProcRes, Res, Rusage, Timeval};
use ir::spec::CaptureFormat;

fn usage() -> Rusage {
    let t = Timeval { tv_sec: 1, tv_usec: 500 };
    Rusage {
        ru_utime: t,
        ru_stime: t,
        ru_maxrss: 7,
        ru_ixrss: 0,
        ru_idrss: 0,
        ru_isrss: 0,
        ru_minflt: 0,
        ru_majflt: 0,
        ru_nswap: 0,
        ru_inblock: 0,
        ru_oublock: 0,
        ru_msgsnd: 0,
        ru_msgrcv: 0,
        ru_nsignals: 0,
        ru_nvcsw: 0,
        ru_nivcsw: 0,
    }
}

#[test]
fn exit_by_code() {
    let r = ProcRes::new(100, 42 << 8, usage());
    assert_eq!(r.pid, 100);
    assert_eq!(r.status, 42 << 8);
    assert_eq!(r.exit_code, Some(42));
    assert_eq!(r.signum, None);
    assert!(!r.core_dump);
    assert_eq!(r.rusage, usage());
    assert!(r.fds.is_empty());
    let r = ProcRes::new(100, 0, usage());
    assert_eq!(r.exit_code, Some(0));
}

#[test]
fn exit_by_signal() {
    let r = ProcRes::new(7, 9, usage());
    assert_eq!(r.exit_code, None);
    assert_eq!(r.signum, Some(9));
    assert!(!r.core_dump);
    let r = ProcRes::new(7, 11 | 0x80, usage());
    assert_eq!(r.exit_code, None);
    assert_eq!(r.signum, Some(11));
    assert!(r.core_dump);
}

#[test]
fn text_capture_is_lossy_utf8() {
    match FdRes::from_bytes(CaptureFormat::Text, b"Hello, world.\n".to_vec()) {
        FdRes::CaptureUtf8 { text } => assert_eq!(text, "Hello, world.\n"),
        other => panic!("unexpected {:?}", other),
    }
    match FdRes::from_bytes(CaptureFormat::Text, vec![b'a', 0xff, b'b', 0xc3]) {
        FdRes::CaptureUtf8 { text } => assert_eq!(text, "a\u{FFFD}b\u{FFFD}"),
        other => panic!("unexpected {:?}", other),
    }
    match FdRes::from_bytes(CaptureFormat::Text, Vec::new()) {
        FdRes::CaptureUtf8 { text } => assert_eq!(text, ""),
        other => panic!("unexpected {:?}", other),
    }
}

#[test]
fn base64_capture_round_trips() {
    let bytes: Vec<u8> = vec![0, 1, 2, 0, 255, 0, b'x'];
    match FdRes::from_bytes(CaptureFormat::Base64, bytes.clone()) {
        FdRes::CaptureBase64 { data, encoding } => {
            assert_eq!(encoding, "base64");
            assert!(!data.ends_with('='));
            assert_eq!(data, "AAECAP8AeA");
            assert_eq!(base64::decode_config(&data, base64::STANDARD_NO_PAD).unwrap(), bytes);
        }
        other => panic!("unexpected {:?}", other),
    }
    match FdRes::from_bytes(CaptureFormat::Base64, Vec::new()) {
        FdRes::CaptureBase64 { data, .. } => assert_eq!(data, ""),
        other => panic!("unexpected {:?}", other),
    }
}

#[test]
fn run_status_reflects_errors() {
    let mut r = Res::new();
    assert_eq!(exit_status(&r), 0);
    r.errors.push("exec: /no/such: No such file or directory".to_string());
    assert_eq!(exit_status(&r), 1);
}
