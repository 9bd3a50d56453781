//! The result of a run: per-process status, resource usage and descriptor
//! results, plus the run-level errors.

use crate::spec::CaptureFormat;
use vstd::prelude::*;
use vstd::utf8::{decode_utf8, valid_utf8};

verus! {

/// A time interval, as the operating system reports it.
#[derive(Clone, Copy, Debug, PartialEq, Eq, Structural)]
pub struct Timeval {
    pub tv_sec: i64,
    pub tv_usec: i64,
}

/// The resource usage of a terminated process, as the operating system
/// reports it.
#[derive(Clone, Copy, Debug, PartialEq, Eq, Structural)]
pub struct Rusage {
    pub ru_utime: Timeval,
    pub ru_stime: Timeval,
    pub ru_maxrss: i64,
    pub ru_ixrss: i64,
    pub ru_idrss: i64,
    pub ru_isrss: i64,
    pub ru_minflt: i64,
    pub ru_majflt: i64,
    pub ru_nswap: i64,
    pub ru_inblock: i64,
    pub ru_oublock: i64,
    pub ru_msgsnd: i64,
    pub ru_msgrcv: i64,
    pub ru_nsignals: i64,
    pub ru_nvcsw: i64,
    pub ru_nivcsw: i64,
}

/// The result of one declared descriptor.
#[derive(Debug)]
pub enum FdRes {
    /// Harvesting the descriptor's result failed; the error is in the run's
    /// error list.
    Error,
    /// The descriptor has nothing to report.
    Empty,
    /// The descriptor was opened to this file.
    File { path: String },
    /// Captured output, decoded as UTF-8 with invalid sequences replaced.
    CaptureUtf8 { text: String },
    /// Captured output, encoded as standard base64 without padding.
    CaptureBase64 { data: String, encoding: String },
}

// ---------------------------------------------------------------------------
// Captured bytes
// ---------------------------------------------------------------------------

/// What `String::from_utf8_lossy` makes of a byte sequence.
pub uninterp spec fn lossy_utf8(b: Seq<u8>) -> Seq<char>;

/// Relies on `String::from_utf8_lossy`: every invalid sequence becomes U+FFFD,
/// and valid UTF-8 is decoded unchanged.
#[verifier::external_body]
pub(crate) fn utf8_lossy(b: &[u8]) -> (r: String)
    ensures
        r@ == lossy_utf8(b@),
        valid_utf8(b@) ==> r@ == decode_utf8(b@),
{
    String::from_utf8_lossy(b).to_string()
}

/// What `base64::encode_config` with `STANDARD_NO_PAD` makes of a byte
/// sequence.
pub uninterp spec fn base64_unpadded(b: Seq<u8>) -> Seq<char>;

/// The longest input whose base64 length fits in `usize`.
pub open spec fn base64_input_limit() -> int {
    (usize::MAX / 4) * 3
}

/// Relies on `base64::encode_config(b, base64::STANDARD_NO_PAD)`, which panics
/// only when the encoded length overflows `usize`; the empty input encodes to
/// the empty string.
#[verifier::external_body]
fn encode_base64(b: &[u8]) -> (r: String)
    requires
        b@.len() <= base64_input_limit(),
    ensures
        r@ == base64_unpadded(b@),
        b@.len() == 0 ==> r@.len() == 0,
{
    base64::encode_config(b, base64::STANDARD_NO_PAD)
}

pub open spec fn base64_word() -> Seq<char> {
    seq!['b', 'a', 's', 'e', '6', '4']
}

/// The result of captured bytes in the requested format.
pub open spec fn capture_result(format: CaptureFormat, b: Seq<u8>, r: FdRes) -> bool {
    match format {
        CaptureFormat::Text => r matches FdRes::CaptureUtf8 { text } && text@ == lossy_utf8(b),
        CaptureFormat::Base64 => r matches FdRes::CaptureBase64 { data, encoding } && data@
            == base64_unpadded(b) && encoding@ == base64_word(),
    }
}

impl FdRes {
    /// Presents captured bytes in `format`: text is decoded lossily as UTF-8,
    /// base64 is standard and unpadded.
    pub fn from_bytes(format: CaptureFormat, buffer: Vec<u8>) -> (r: FdRes)
        requires
            format == CaptureFormat::Base64 ==> buffer@.len() <= base64_input_limit(),
        ensures
            capture_result(format, buffer@, r),
    {
        match format {
            CaptureFormat::Text => {
                let text = utf8_lossy(buffer.as_slice());
                FdRes::CaptureUtf8 { text }
            },
            CaptureFormat::Base64 => {
                let data = encode_base64(buffer.as_slice());
                let encoding = String::from_str("base64");
                proof {
                    reveal_strlit("base64");
                }
                assert(encoding@ =~= base64_word());
                FdRes::CaptureBase64 { data, encoding }
            },
        }
    }
}

// ---------------------------------------------------------------------------
// Wait status
// ---------------------------------------------------------------------------

/// Relies on `libc::WIFEXITED`: a status reports a normal exit when its low
/// seven bits are zero.
pub assume_specification[ libc::WIFEXITED ](status: libc::c_int) -> (r: bool)
    ensures
        r == ((status & 0x7f) == 0),
;

/// Relies on `libc::WEXITSTATUS`: the exit code is the second byte of the
/// status.
pub assume_specification[ libc::WEXITSTATUS ](status: libc::c_int) -> (r: libc::c_int)
    ensures
        r == ((status >> 8) & 0xff),
;

/// Relies on `libc::WTERMSIG`: the terminating signal is the low seven bits
/// of the status.
pub assume_specification[ libc::WTERMSIG ](status: libc::c_int) -> (r: libc::c_int)
    ensures
        r == (status & 0x7f),
;

/// Relies on `libc::WCOREDUMP`: bit 0x80 of the status tells whether core was
/// dumped.
pub assume_specification[ libc::WCOREDUMP ](status: libc::c_int) -> (r: bool)
    ensures
        r == ((status & 0x80) != 0),
;

/// Whether a wait status reports a normal exit.
pub open spec fn exited(status: i32) -> bool {
    (status & 0x7f) == 0
}

/// The exit code of a process that exited, if it did.
pub open spec fn exit_code_of(status: i32) -> Option<i32> {
    if exited(status) {
        Some((status >> 8) & 0xff)
    } else {
        None
    }
}

/// The signal that terminated a process, if it did not exit.
pub open spec fn signum_of(status: i32) -> Option<i32> {
    if exited(status) {
        None
    } else {
        Some(status & 0x7f)
    }
}

/// Whether a process killed by a signal dumped core.
pub open spec fn core_dump_of(status: i32) -> bool {
    !exited(status) && (status & 0x80) != 0
}

/// The result of one process.
#[derive(Debug)]
pub struct ProcRes {
    /// The pid with which the process ran.
    pub pid: i32,
    /// Wait status, which combines the exit code or the signal number.
    pub status: i32,
    /// Exit code (low 8 bits), if the process exited.
    pub exit_code: Option<i32>,
    /// Signal number, if the process was terminated by a signal.
    pub signum: Option<i32>,
    /// Whether the process dumped core, if terminated by a signal.
    pub core_dump: bool,
    /// Descriptor results, by descriptor name, in declaration order.
    pub fds: Vec<(String, FdRes)>,
    /// Resource usage of the process itself.
    pub rusage: Rusage,
}

impl ProcRes {
    pub fn new(pid: i32, status: i32, rusage: Rusage) -> (r: ProcRes)
        ensures
            r.pid == pid,
            r.status == status,
            r.exit_code == exit_code_of(status),
            r.signum == signum_of(status),
            r.core_dump == core_dump_of(status),
            r.fds@.len() == 0,
            r.rusage == rusage,
    {
        let (exit_code, signum, core_dump) = if libc::WIFEXITED(status) {
            (Some(libc::WEXITSTATUS(status)), None, false)
        } else {
            (None, Some(libc::WTERMSIG(status)), libc::WCOREDUMP(status))
        };
        ProcRes { pid, status, exit_code, signum, core_dump, fds: Vec::new(), rusage }
    }
}

/// The wait status of a process that exited with `code`.
pub open spec fn exit_status_word(code: i32) -> i32 {
    (code * 256) as i32
}

/// The wait status of a process killed by signal `sig`, with or without a
/// core dump.
pub open spec fn signal_status_word(sig: i32, core: bool) -> i32 {
    (sig + if core { 0x80int } else { 0 }) as i32
}

/// A process that exits with code `code` is reported with that exit code, no
/// signal and no core dump; one killed by signal `sig` is reported with no
/// exit code, that signal, and the core-dump bit the status carries.
pub proof fn lemma_status_decoding(code: i32, sig: i32, core: bool)
    requires
        0 <= code < 256,
        1 <= sig < 0x7f,
    ensures
        exit_code_of(exit_status_word(code)) == Some(code),
        signum_of(exit_status_word(code)) is None,
        !core_dump_of(exit_status_word(code)),
        exit_code_of(signal_status_word(sig, core)) is None,
        signum_of(signal_status_word(sig, core)) == Some(sig),
        core_dump_of(signal_status_word(sig, core)) == core,
{
    let s = exit_status_word(code);
    assert(s == code << 8) by (bit_vector)
        requires
            0 <= code < 256,
            s == (code * 256) as i32,
    ;
    assert((s & 0x7f) == 0 && ((s >> 8) & 0xff) == code) by (bit_vector)
        requires
            0 <= code < 256,
            s == code << 8,
    ;
    let c: i32 = if core { 0x80 } else { 0 };
    let t = signal_status_word(sig, core);
    assert(t == sig + c);
    assert((t & 0x7f) == sig && ((t & 0x80) != 0) == (c == 0x80)) by (bit_vector)
        requires
            1 <= sig < 0x7f,
            c == 0 || c == 0x80,
            t == sig + c,
    ;
}

// ---------------------------------------------------------------------------
// Run result
// ---------------------------------------------------------------------------

/// The result of a whole run.
#[derive(Debug)]
pub struct Res {
    /// One result per declared process, in declaration order.
    pub procs: Vec<ProcRes>,
    /// Run-level errors, in the order in which they were recorded.
    pub errors: Vec<String>,
}

impl Res {
    pub fn new() -> (r: Res)
        ensures
            r.procs@.len() == 0,
            r.errors@.len() == 0,
    {
        Res { procs: Vec::new(), errors: Vec::new() }
    }
}

/// The exit status of the supervisor: zero when no error was recorded.
pub fn exit_status(result: &Res) -> (r: i32)
    ensures
        r == 0 <==> result.errors@.len() == 0,
        r != 0 ==> r == 1,
{
    if result.errors.len() > 0 {
        1
    } else {
        0
    }
}

} // verus!
