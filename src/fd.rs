//! Descriptor names, open-flag policy, and the per-descriptor actions.

use crate::res::{base64_input_limit, base64_unpadded, base64_word, lossy_utf8, FdRes};
use crate::spec;
use crate::spec::{CaptureFormat, CaptureMode, OpenFlag};
use vstd::prelude::*;

verus! {

// ---------------------------------------------------------------------------
// Descriptor names
// ---------------------------------------------------------------------------

/// Why a descriptor name could not be read as a number.
#[derive(Clone, Copy, Debug, PartialEq, Eq, Structural)]
pub enum ParseFdError {
    /// The name is empty.
    Empty,
    /// The name holds a character that is not a decimal digit.
    InvalidDigit,
    /// The number is above the largest descriptor number.
    PosOverflow,
    /// The number is below the smallest descriptor number.
    NegOverflow,
}

pub open spec fn parse_error_message(e: ParseFdError) -> Seq<char> {
    match e {
        ParseFdError::Empty => "cannot parse integer from empty string"@,
        ParseFdError::InvalidDigit => "invalid digit found in string"@,
        ParseFdError::PosOverflow => "number too large to fit in target type"@,
        ParseFdError::NegOverflow => "number too small to fit in target type"@,
    }
}

impl ParseFdError {
    /// A short human-readable description of the error.
    pub fn message(&self) -> (r: String)
        ensures
            r@ == parse_error_message(*self),
    {
        match self {
            ParseFdError::Empty => String::from_str("cannot parse integer from empty string"),
            ParseFdError::InvalidDigit => String::from_str("invalid digit found in string"),
            ParseFdError::PosOverflow => String::from_str("number too large to fit in target type"),
            ParseFdError::NegOverflow => String::from_str("number too small to fit in target type"),
        }
    }
}

pub open spec fn is_digit(c: char) -> bool {
    '0' <= c && c <= '9'
}

pub open spec fn digit_value(c: char) -> int {
    c as int - '0' as int
}

/// The value of a sequence of decimal digits, most significant first.
pub open spec fn digits_value(s: Seq<char>) -> int
    decreases s.len(),
{
    if s.len() == 0 {
        0
    } else {
        digits_value(s.drop_last()) * 10 + digit_value(s.last())
    }
}

/// The length of the longest prefix of `s` made of decimal digits.
pub open spec fn digit_prefix_len(s: Seq<char>) -> int
    decreases s.len(),
{
    if s.len() == 0 || !is_digit(s[0]) {
        0
    } else {
        1 + digit_prefix_len(s.drop_first())
    }
}

/// Whether `s` starts with a sign character that is followed by more text.
pub open spec fn has_sign(s: Seq<char>) -> bool {
    s.len() > 0 && (s[0] == '+' || s[0] == '-')
}

/// The digits of a number in decimal notation, after an optional sign.
pub open spec fn unsigned_part(s: Seq<char>) -> Seq<char> {
    if has_sign(s) {
        s.drop_first()
    } else {
        s
    }
}

pub open spec fn is_negative(s: Seq<char>) -> bool {
    s.len() > 0 && s[0] == '-'
}

/// The largest magnitude a descriptor number of the given sign may have.
pub open spec fn magnitude_bound(negative: bool) -> int {
    if negative {
        0x8000_0000
    } else {
        0x7fff_ffff
    }
}

/// Reading a decimal number as a 32-bit signed integer: an optional sign, then
/// digits, read left to right; the first of overflow or a non-digit decides
/// the error.
pub open spec fn parse_int_spec(s: Seq<char>) -> Result<i32, ParseFdError> {
    let body = unsigned_part(s);
    let k = digit_prefix_len(body);
    let neg = is_negative(s);
    if s.len() == 0 {
        Err(ParseFdError::Empty)
    } else if body.len() == 0 {
        Err(ParseFdError::InvalidDigit)
    } else if digits_value(body.subrange(0, k)) > magnitude_bound(neg) {
        if neg {
            Err(ParseFdError::NegOverflow)
        } else {
            Err(ParseFdError::PosOverflow)
        }
    } else if k < body.len() {
        Err(ParseFdError::InvalidDigit)
    } else if neg {
        Ok((-digits_value(body)) as i32)
    } else {
        Ok(digits_value(body) as i32)
    }
}

/// The descriptor that a name designates.
pub open spec fn parse_fd_spec(s: Seq<char>) -> Result<i32, ParseFdError> {
    if s == seq!['s', 't', 'd', 'i', 'n'] {
        Ok(0)
    } else if s == seq!['s', 't', 'd', 'o', 'u', 't'] {
        Ok(1)
    } else if s == seq!['s', 't', 'd', 'e', 'r', 'r'] {
        Ok(2)
    } else {
        parse_int_spec(s)
    }
}

proof fn lemma_digit_prefix(s: Seq<char>)
    ensures
        0 <= digit_prefix_len(s) <= s.len(),
        forall|i: int| 0 <= i < digit_prefix_len(s) ==> is_digit(#[trigger] s[i]),
        digit_prefix_len(s) < s.len() ==> !is_digit(s[digit_prefix_len(s)]),
    decreases s.len(),
{
    if s.len() > 0 && is_digit(s[0]) {
        lemma_digit_prefix(s.drop_first());
        assert forall|i: int| 0 <= i < digit_prefix_len(s) implies is_digit(#[trigger] s[i]) by {
            if i > 0 {
                assert(s[i] == s.drop_first()[i - 1]);
            }
        }
    }
}

proof fn lemma_digits_value_nonneg(s: Seq<char>)
    requires
        forall|i: int| 0 <= i < s.len() ==> is_digit(#[trigger] s[i]),
    ensures
        digits_value(s) >= 0,
    decreases s.len(),
{
    if s.len() > 0 {
        lemma_digits_value_nonneg(s.drop_last());
    }
}

/// Reads a descriptor name: `stdin`, `stdout`, `stderr`, or a decimal number.
pub fn parse_fd(fd: &str) -> (r: Result<i32, ParseFdError>)
    ensures
        r == parse_fd_spec(fd@),
{
    let n = fd.unicode_len();
    if n == 5 && fd.get_char(0) == 's' && fd.get_char(1) == 't' && fd.get_char(2) == 'd'
        && fd.get_char(3) == 'i' && fd.get_char(4) == 'n' {
        assert(fd@ =~= seq!['s', 't', 'd', 'i', 'n']);
        return Ok(0);
    }
    if n == 6 && fd.get_char(0) == 's' && fd.get_char(1) == 't' && fd.get_char(2) == 'd' {
        let c3 = fd.get_char(3);
        let c4 = fd.get_char(4);
        let c5 = fd.get_char(5);
        if c3 == 'o' && c4 == 'u' && c5 == 't' {
            assert(fd@ =~= seq!['s', 't', 'd', 'o', 'u', 't']);
            return Ok(1);
        }
        if c3 == 'e' && c4 == 'r' && c5 == 'r' {
            assert(fd@ =~= seq!['s', 't', 'd', 'e', 'r', 'r']);
            return Ok(2);
        }
    }
    let ghost s = fd@;
    assert(s != seq!['s', 't', 'd', 'i', 'n']) by {
        if s == seq!['s', 't', 'd', 'i', 'n'] {
            assert(s.len() == 5 && s[0] == 's' && s[1] == 't' && s[2] == 'd' && s[3] == 'i' && s[4] == 'n');
        }
    }
    assert(s != seq!['s', 't', 'd', 'o', 'u', 't']) by {
        if s == seq!['s', 't', 'd', 'o', 'u', 't'] {
            assert(s.len() == 6 && s[0] == 's' && s[1] == 't' && s[2] == 'd' && s[3] == 'o' && s[4] == 'u' && s[5] == 't');
        }
    }
    assert(s != seq!['s', 't', 'd', 'e', 'r', 'r']) by {
        if s == seq!['s', 't', 'd', 'e', 'r', 'r'] {
            assert(s.len() == 6 && s[0] == 's' && s[1] == 't' && s[2] == 'd' && s[3] == 'e' && s[4] == 'r' && s[5] == 'r');
        }
    }
    parse_int(fd)
}

/// Reads a decimal number as a 32-bit signed integer.
pub fn parse_int(s: &str) -> (r: Result<i32, ParseFdError>)
    ensures
        r == parse_int_spec(s@),
{
    let n = s.unicode_len();
    if n == 0 {
        return Err(ParseFdError::Empty);
    }
    let first = s.get_char(0);
    let neg = first == '-';
    let start: usize = if first == '-' || first == '+' { 1 } else { 0 };
    let ghost body = unsigned_part(s@);
    assert(body =~= s@.subrange(start as int, n as int));
    if start == n {
        return Err(ParseFdError::InvalidDigit);
    }
    let bound: i64 = if neg { 0x8000_0000 } else { 0x7fff_ffff };
    let mut acc: i64 = 0;
    let mut i: usize = start;
    proof {
        lemma_digit_prefix(body);
        assert(body.subrange(0, 0) =~= Seq::<char>::empty());
    }
    while i < n
        invariant
            start <= i <= n,
            n == s@.len(),
            body == s@.subrange(start as int, n as int),
            body == unsigned_part(s@),
            bound == magnitude_bound(neg),
            neg == is_negative(s@),
            body.len() > 0,
            0 <= digit_prefix_len(body) <= body.len(),
            i - start <= digit_prefix_len(body),
            forall|j: int| 0 <= j < digit_prefix_len(body) ==> is_digit(#[trigger] body[j]),
            digit_prefix_len(body) < body.len() ==> !is_digit(body[digit_prefix_len(body)]),
            acc == digits_value(body.subrange(0, i - start)),
            0 <= acc <= bound,
        decreases n - i,
    {
        let c = s.get_char(i);
        assert(body[i - start] == c);
        if !('0' <= c && c <= '9') {
            assert(i - start == digit_prefix_len(body));
            return Err(ParseFdError::InvalidDigit);
        }
        let d = (c as u32 - '0' as u32) as i64;
        let ghost prev = body.subrange(0, i - start);
        let ghost next = body.subrange(0, i + 1 - start);
        assert(next.drop_last() =~= prev);
        assert(next.last() == c);
        assert(i - start < digit_prefix_len(body));
        acc = acc * 10 + d;
        i = i + 1;
        if acc > bound {
            proof {
                // Every longer digit prefix is at least as large.
                lemma_prefix_monotone(body, i - start, digit_prefix_len(body));
                assert(digits_value(body.subrange(0, digit_prefix_len(body))) > magnitude_bound(neg));
            }
            if neg {
                return Err(ParseFdError::NegOverflow);
            } else {
                return Err(ParseFdError::PosOverflow);
            }
        }
    }
    assert(body.subrange(0, body.len() as int) =~= body);
    proof {
        lemma_digit_prefix(body);
    }
    if neg {
        Ok((-acc) as i32)
    } else {
        Ok(acc as i32)
    }
}

proof fn lemma_prefix_monotone(s: Seq<char>, a: int, b: int)
    requires
        0 <= a <= b <= s.len(),
        forall|j: int| 0 <= j < b ==> is_digit(#[trigger] s[j]),
    ensures
        digits_value(s.subrange(0, a)) <= digits_value(s.subrange(0, b)),
    decreases b - a,
{
    if a < b {
        lemma_prefix_monotone(s, a, b - 1);
        let t = s.subrange(0, b);
        assert(t.drop_last() =~= s.subrange(0, b - 1));
        assert(is_digit(s[b - 1]));
        lemma_digits_value_nonneg(s.subrange(0, b - 1));
    }
}

/// The decimal notation of an integer.
pub open spec fn decimal_digits(n: nat) -> Seq<char>
    decreases n,
{
    if n < 10 {
        seq![(n + '0' as nat) as char]
    } else {
        decimal_digits(n / 10).push(((n % 10) + '0' as nat) as char)
    }
}

pub open spec fn decimal(n: int) -> Seq<char> {
    if n < 0 {
        seq!['-'] + decimal_digits((-n) as nat)
    } else {
        decimal_digits(n as nat)
    }
}

/// Relies on the `Display` impl of `i32` through `ToString`: the number in
/// decimal, with a leading minus sign when negative.
#[verifier::external_body]
pub(crate) fn int_to_string(n: i32) -> (r: String)
    ensures
        r@ == decimal(n as int),
{
    n.to_string()
}

/// The name of a descriptor in the result: `stdin`, `stdout`, `stderr`, or its
/// number in decimal.
pub open spec fn fd_name_spec(fd: i32) -> Seq<char> {
    if fd == 0 {
        seq!['s', 't', 'd', 'i', 'n']
    } else if fd == 1 {
        seq!['s', 't', 'd', 'o', 'u', 't']
    } else if fd == 2 {
        seq!['s', 't', 'd', 'e', 'r', 'r']
    } else {
        decimal(fd as int)
    }
}

pub fn get_fd_name(fd: i32) -> (r: String)
    ensures
        r@ == fd_name_spec(fd),
{
    if fd == 0 {
        let r = String::from_str("stdin");
        proof { reveal_strlit("stdin"); }
        assert(r@ =~= seq!['s', 't', 'd', 'i', 'n']);
        r
    } else if fd == 1 {
        let r = String::from_str("stdout");
        proof { reveal_strlit("stdout"); }
        assert(r@ =~= seq!['s', 't', 'd', 'o', 'u', 't']);
        r
    } else if fd == 2 {
        let r = String::from_str("stderr");
        proof { reveal_strlit("stderr"); }
        assert(r@ =~= seq!['s', 't', 'd', 'e', 'r', 'r']);
        r
    } else {
        int_to_string(fd)
    }
}

// ---------------------------------------------------------------------------
// Open flags
// ---------------------------------------------------------------------------

/// The access mode a file is opened with.
#[derive(Clone, Copy, Debug, PartialEq, Eq, Structural)]
pub enum Access {
    ReadOnly,
    WriteOnly,
    ReadWrite,
}

/// The flags of an `open` call, one field for each flag.
#[derive(Clone, Copy, Debug, PartialEq, Eq, Structural)]
pub struct OpenFlags {
    pub access: Access,
    pub create: bool,
    pub truncate: bool,
    pub exclusive: bool,
    pub append: bool,
}

pub open spec fn flags_of(access: Access, create: bool, truncate: bool, exclusive: bool, append: bool) -> OpenFlags {
    OpenFlags { access, create, truncate, exclusive, append }
}

/// The flags with which a declared file is opened for descriptor `fd`.
pub open spec fn oflags_spec(flags: OpenFlag, fd: i32) -> OpenFlags {
    match flags {
        OpenFlag::Default => if fd == 0 {
            flags_of(Access::ReadOnly, false, false, false, false)
        } else if fd == 1 || fd == 2 {
            flags_of(Access::WriteOnly, true, true, false, false)
        } else {
            flags_of(Access::ReadWrite, true, true, false, false)
        },
        OpenFlag::Read => flags_of(Access::ReadOnly, false, false, false, false),
        OpenFlag::Write => flags_of(Access::WriteOnly, true, true, false, false),
        OpenFlag::Create => flags_of(Access::WriteOnly, true, false, true, false),
        OpenFlag::Replace => flags_of(Access::WriteOnly, false, true, false, false),
        OpenFlag::Append => flags_of(Access::WriteOnly, false, false, false, true),
        OpenFlag::CreateAppend => flags_of(Access::WriteOnly, true, false, false, true),
        OpenFlag::ReadWrite => flags_of(Access::ReadWrite, true, true, false, false),
    }
}

pub fn get_oflags(flags: &OpenFlag, fd: i32) -> (r: OpenFlags)
    ensures
        r == oflags_spec(*flags, fd),
{
    let rd = Access::ReadOnly;
    let wr = Access::WriteOnly;
    let rw = Access::ReadWrite;
    match flags {
        OpenFlag::Default => if fd == 0 {
            OpenFlags { access: rd, create: false, truncate: false, exclusive: false, append: false }
        } else if fd == 1 || fd == 2 {
            OpenFlags { access: wr, create: true, truncate: true, exclusive: false, append: false }
        } else {
            OpenFlags { access: rw, create: true, truncate: true, exclusive: false, append: false }
        },
        OpenFlag::Read => OpenFlags { access: rd, create: false, truncate: false, exclusive: false, append: false },
        OpenFlag::Write => OpenFlags { access: wr, create: true, truncate: true, exclusive: false, append: false },
        OpenFlag::Create => OpenFlags { access: wr, create: true, truncate: false, exclusive: true, append: false },
        OpenFlag::Replace => OpenFlags { access: wr, create: false, truncate: true, exclusive: false, append: false },
        OpenFlag::Append => OpenFlags { access: wr, create: false, truncate: false, exclusive: false, append: true },
        OpenFlag::CreateAppend => OpenFlags { access: wr, create: true, truncate: false, exclusive: false, append: true },
        OpenFlag::ReadWrite => OpenFlags { access: rw, create: true, truncate: true, exclusive: false, append: false },
    }
}

// ---------------------------------------------------------------------------
// Descriptor actions
// ---------------------------------------------------------------------------

/// What a descriptor specification needs allocated before the fork.
#[derive(Clone, Copy, Debug, PartialEq, Eq, Structural)]
pub enum Prealloc {
    Nothing,
    /// A temporary file, already unlinked.
    TempFile,
    /// A pipe.
    Pipe,
}

/// What was allocated before the fork.
#[derive(Clone, Copy, Debug, PartialEq, Eq, Structural)]
pub enum Allocated {
    Nothing,
    /// The descriptor of an unlinked temporary file.
    TempFile(i32),
    /// The read and write ends of a pipe.
    Pipe(i32, i32),
}

pub open spec fn prealloc_spec(fd_spec: &spec::Fd) -> Prealloc {
    match fd_spec {
        spec::Fd::Capture { mode, .. } => match mode {
            CaptureMode::TempFile => Prealloc::TempFile,
            CaptureMode::Memory => Prealloc::Pipe,
        },
        _ => Prealloc::Nothing,
    }
}

/// Whether `alloc` is what `fd_spec` needs.
pub open spec fn allocation_fits(fd_spec: &spec::Fd, alloc: Allocated) -> bool {
    match prealloc_spec(fd_spec) {
        Prealloc::Nothing => alloc is Nothing,
        Prealloc::TempFile => alloc is TempFile,
        Prealloc::Pipe => alloc is Pipe,
    }
}

/// What a descriptor specification needs allocated before the fork: captures
/// need a temporary file or a pipe up front.
pub fn preallocation(fd_spec: &spec::Fd) -> (r: Prealloc)
    ensures
        r == prealloc_spec(fd_spec),
{
    match fd_spec {
        spec::Fd::Capture { mode, .. } => match mode {
            CaptureMode::TempFile => Prealloc::TempFile,
            CaptureMode::Memory => Prealloc::Pipe,
        },
        _ => Prealloc::Nothing,
    }
}

/// An in-memory capture: a pipe whose read end the parent drains.
#[derive(Debug)]
pub struct MemoryCapture {
    /// Read end of the pipe.
    pub read_fd: i32,
    /// Write end of the pipe.
    pub write_fd: i32,
    /// Format of the result.
    pub format: CaptureFormat,
    /// Bytes captured so far.
    pub buf: Vec<u8>,
}

/// The behaviour bound to one declared descriptor.
#[derive(Debug)]
pub enum Action {
    Inherit,
    Close,
    File { path: String, oflags: OpenFlags, mode: i32 },
    Dup { dup_fd: i32 },
    TempFileCapture { tmp_fd: i32, format: CaptureFormat },
    MemoryCapture(MemoryCapture),
}

/// Where a descriptor action is in its lifecycle.
#[derive(Clone, Copy, Debug, PartialEq, Eq, Structural)]
pub enum Stage {
    Created,
    SetUpInChild,
    Running,
}

/// One declared descriptor of one child, with the resources it owns.
#[derive(Debug)]
pub struct Fd {
    pub fd: i32,
    pub action: Action,
    pub stage: Stage,
}

/// The null device.
pub open spec fn null_path() -> Seq<char> {
    "/dev/null"@
}

/// The action that `fd_spec` yields for descriptor `fd`, given what was
/// allocated for it.
pub open spec fn create_spec(fd: i32, fd_spec: &spec::Fd, alloc: Allocated, r: Fd) -> bool {
    &&& r.fd == fd
    &&& r.stage == Stage::Created
    &&& match fd_spec {
        spec::Fd::Inherit => r.action is Inherit,
        spec::Fd::Close => r.action is Close,
        spec::Fd::Null { flags } => r.action matches Action::File { path, oflags, mode } && path@
            == null_path() && oflags == oflags_spec(*flags, fd) && mode == 0,
        spec::Fd::File { path: p, flags, mode: m } => r.action matches Action::File {
            path,
            oflags,
            mode,
        } && path@ == p@ && oflags == oflags_spec(*flags, fd) && mode == *m,
        spec::Fd::Dup { fd: other } => r.action == Action::Dup { dup_fd: *other },
        spec::Fd::Capture { format, .. } => match alloc {
            Allocated::TempFile(t) => r.action == Action::TempFileCapture { tmp_fd: t, format: *format },
            Allocated::Pipe(rd, wr) => r.action matches Action::MemoryCapture(m) && m.read_fd == rd
                && m.write_fd == wr && m.format == *format && m.buf@.len() == 0,
            Allocated::Nothing => false,
        },
    }
}

/// Builds the action for descriptor `fd` from its specification and what was
/// allocated for it before the fork.
pub fn create_fd(fd: i32, fd_spec: &spec::Fd, alloc: Allocated) -> (r: Fd)
    requires
        allocation_fits(fd_spec, alloc),
    ensures
        create_spec(fd, fd_spec, alloc, r),
{
    let action = match fd_spec {
        spec::Fd::Inherit => Action::Inherit,
        spec::Fd::Close => Action::Close,
        spec::Fd::Null { flags } => {
            let path = String::from_str("/dev/null");
            Action::File { path, oflags: get_oflags(flags, fd), mode: 0 }
        },
        spec::Fd::File { path, flags, mode } => {
            Action::File { path: path.clone(), oflags: get_oflags(flags, fd), mode: *mode }
        },
        spec::Fd::Dup { fd: other } => Action::Dup { dup_fd: *other },
        spec::Fd::Capture { format, .. } => match alloc {
            Allocated::TempFile(t) => Action::TempFileCapture { tmp_fd: t, format: *format },
            Allocated::Pipe(rd, wr) => Action::MemoryCapture(
                MemoryCapture { read_fd: rd, write_fd: wr, format: *format, buf: Vec::new() },
            ),
            Allocated::Nothing => Action::Inherit,
        },
    };
    Fd { fd, action, stage: Stage::Created }
}

/// One system call that the child makes to set a descriptor up.
#[derive(Debug)]
pub enum ChildStep {
    /// Open `path`, duplicate the new descriptor onto `target`, close it.
    Open { path: String, oflags: OpenFlags, mode: i32, target: i32 },
    /// Duplicate `from` onto `to`.
    Dup2 { from: i32, to: i32 },
    /// Close `fd`.
    Close { fd: i32 },
}

/// The calls that make descriptor `a` ready in the child, in order.
pub open spec fn child_plan(a: Fd, r: Seq<ChildStep>) -> bool {
    match a.action {
        Action::Inherit => r.len() == 0,
        Action::Close => r.len() == 1 && r[0] == ChildStep::Close { fd: a.fd },
        Action::File { path, oflags, mode } => r.len() == 1 && (r[0] matches ChildStep::Open {
            path: p,
            oflags: o,
            mode: m,
            target,
        } && p@ == path@ && o == oflags && m == mode && target == a.fd),
        Action::Dup { dup_fd } => r.len() == 1 && r[0] == ChildStep::Dup2 { from: dup_fd, to: a.fd },
        Action::TempFileCapture { tmp_fd, .. } => r.len() == 2 && r[0] == ChildStep::Dup2 {
            from: tmp_fd,
            to: a.fd,
        } && r[1] == ChildStep::Close { fd: tmp_fd },
        Action::MemoryCapture(m) => r.len() == 2 && r[0] == ChildStep::Close { fd: m.read_fd }
            && r[1] == ChildStep::Dup2 { from: m.write_fd, to: a.fd },
    }
}

/// What the parent does for one descriptor right after the fork.
#[derive(Clone, Copy, Debug, PartialEq, Eq, Structural)]
pub struct ParentSetup {
    /// A descriptor that only the child uses now, to close.
    pub close: Option<i32>,
    /// A descriptor to register with the multiplexer, once closing succeeded.
    pub reader: Option<i32>,
}

/// The bytes harvested from a temporary-file capture after its child ended.
#[derive(Debug)]
pub enum Harvest {
    /// The action has no file to read.
    Nothing,
    /// The whole content of the file.
    Bytes(Vec<u8>),
    /// Reading the file failed with this message.
    Failed(String),
}

/// The spec-level content of a descriptor result.
pub enum FdResView {
    Error,
    Empty,
    File(Seq<char>),
    Text(Seq<char>),
    /// Encoded data, and the name of the encoding.
    Base64(Seq<char>, Seq<char>),
}

pub open spec fn res_view(r: FdRes) -> FdResView {
    match r {
        FdRes::Error => FdResView::Error,
        FdRes::Empty => FdResView::Empty,
        FdRes::File { path } => FdResView::File(path@),
        FdRes::CaptureUtf8 { text } => FdResView::Text(text@),
        FdRes::CaptureBase64 { data, encoding } => FdResView::Base64(data@, encoding@),
    }
}

/// What cleaning up one descriptor yields.
pub enum CleanUp {
    /// Nothing to report.
    Skip,
    /// A result for the descriptor.
    Entry(FdResView),
    /// An error, with this message.
    Fail(Seq<char>),
}

pub open spec fn capture_view(format: CaptureFormat, b: Seq<u8>) -> FdResView {
    match format {
        CaptureFormat::Text => FdResView::Text(lossy_utf8(b)),
        CaptureFormat::Base64 => FdResView::Base64(base64_unpadded(b), base64_word()),
    }
}

/// Whether captured bytes are too many to encode in `format`.
pub open spec fn too_large(format: CaptureFormat, len: nat) -> bool {
    format == CaptureFormat::Base64 && len > base64_input_limit()
}

pub open spec fn too_large_message() -> Seq<char> {
    "captured output too large to encode"@
}

pub open spec fn captured(format: CaptureFormat, b: Seq<u8>) -> CleanUp {
    if too_large(format, b.len()) {
        CleanUp::Fail(too_large_message())
    } else {
        CleanUp::Entry(capture_view(format, b))
    }
}

/// Whether `h` is what the caller harvests for `a`.
pub open spec fn harvest_fits(a: Fd, h: Harvest) -> bool {
    if a.action is TempFileCapture {
        !(h is Nothing)
    } else {
        h is Nothing
    }
}

/// The outcome of cleaning up `a` after its child ended.
pub open spec fn clean_up_spec(a: Fd, h: Harvest) -> CleanUp {
    match a.action {
        Action::File { path, .. } => CleanUp::Entry(FdResView::File(path@)),
        Action::TempFileCapture { format, .. } => match h {
            Harvest::Bytes(b) => captured(format, b@),
            Harvest::Failed(m) => CleanUp::Fail(m@),
            Harvest::Nothing => CleanUp::Skip,
        },
        Action::MemoryCapture(m) => captured(m.format, m.buf@),
        _ => CleanUp::Skip,
    }
}

pub open spec fn clean_up_result(c: CleanUp, r: Result<Option<FdRes>, String>) -> bool {
    match c {
        CleanUp::Skip => r matches Ok(None),
        CleanUp::Entry(v) => r matches Ok(Some(x)) && res_view(x) == v,
        CleanUp::Fail(m) => r matches Err(e) && e@ == m,
    }
}

/// What taking `chunk` does to an in-memory capture: the bytes are appended
/// to the buffer, and nothing else changes.
pub open spec fn capture_read_spec(before: Fd, after: Fd, chunk: Seq<u8>) -> bool {
    &&& after.fd == before.fd
    &&& after.stage == before.stage
    &&& before.action matches Action::MemoryCapture(m0) && (after.action matches Action::MemoryCapture(m)
        && m.read_fd == m0.read_fd && m.write_fd == m0.write_fd && m.format == m0.format
        && m.buf@ == m0.buf@ + chunk)
}

impl Fd {
    pub fn get_fd(&self) -> (r: i32)
        ensures
            r == self.fd,
    {
        self.fd
    }

    /// The calls that make the descriptor ready in the child, in order.  Once
    /// they are made, the child no longer owns a temporary file's own
    /// descriptor.
    pub fn set_up_in_child(&mut self) -> (r: Vec<ChildStep>)
        requires
            old(self).stage == Stage::Created,
        ensures
            child_plan(*old(self), r@),
            final(self).fd == old(self).fd,
            final(self).stage == Stage::SetUpInChild,
    {
        let fd = self.fd;
        let mut steps: Vec<ChildStep> = Vec::new();
        match &mut self.action {
            Action::Inherit => {},
            Action::Close => {
                steps.push(ChildStep::Close { fd });
            },
            Action::File { path, oflags, mode } => {
                steps.push(ChildStep::Open { path: path.clone(), oflags: *oflags, mode: *mode, target: fd });
            },
            Action::Dup { dup_fd } => {
                steps.push(ChildStep::Dup2 { from: *dup_fd, to: fd });
            },
            Action::TempFileCapture { tmp_fd, .. } => {
                steps.push(ChildStep::Dup2 { from: *tmp_fd, to: fd });
                steps.push(ChildStep::Close { fd: *tmp_fd });
                *tmp_fd = -1;
            },
            Action::MemoryCapture(m) => {
                steps.push(ChildStep::Close { fd: m.read_fd });
                steps.push(ChildStep::Dup2 { from: m.write_fd, to: fd });
            },
        }
        self.stage = Stage::SetUpInChild;
        steps
    }

    /// What the parent does right after the fork: an in-memory capture closes
    /// the pipe's write end, which only the child writes, and registers the
    /// read end.
    pub fn set_up_in_parent(&mut self) -> (r: ParentSetup)
        requires
            old(self).stage == Stage::Created,
        ensures
            final(self).fd == old(self).fd,
            final(self).action == old(self).action,
            final(self).stage == Stage::Running,
            match old(self).action {
                Action::MemoryCapture(m) => r == ParentSetup {
                    close: Some(m.write_fd),
                    reader: Some(m.read_fd),
                },
                _ => r == ParentSetup { close: None, reader: None },
            },
    {
        self.stage = Stage::Running;
        match &self.action {
            Action::MemoryCapture(m) => ParentSetup { close: Some(m.write_fd), reader: Some(m.read_fd) },
            _ => ParentSetup { close: None, reader: None },
        }
    }

    /// The descriptor of the temporary file to read back after the child
    /// ended, if the action captures to one.
    pub fn harvest_fd(&self) -> (r: Option<i32>)
        ensures
            match self.action {
                Action::TempFileCapture { tmp_fd, .. } => r == Some(tmp_fd),
                _ => r is None,
            },
    {
        match &self.action {
            Action::TempFileCapture { tmp_fd, .. } => Some(*tmp_fd),
            _ => None,
        }
    }

    /// Takes the outcome of one read from an in-memory capture's pipe: the
    /// bytes read, where no bytes mean the end of the stream.  Returns whether
    /// the stream is finished.
    pub fn read(&mut self, chunk: &[u8]) -> (r: bool)
        requires
            old(self).action is MemoryCapture,
        ensures
            capture_read_spec(*old(self), *final(self), chunk@),
            r == (chunk@.len() == 0),
    {
        match &mut self.action {
            Action::MemoryCapture(m) => {
                let ghost b0 = m.buf@;
                let ghost (rd, wr, fmt) = (m.read_fd, m.write_fd, m.format);
                let mut i: usize = 0;
                while i < chunk.len()
                    invariant
                        i <= chunk@.len(),
                        m.read_fd == rd,
                        m.write_fd == wr,
                        m.format == fmt,
                        m.buf@ == b0 + chunk@.subrange(0, i as int),
                    decreases chunk@.len() - i,
                {
                    m.buf.push(chunk[i]);
                    assert(chunk@.subrange(0, i + 1) =~= chunk@.subrange(0, i as int).push(chunk@[i as int]));
                    i = i + 1;
                }
                assert(chunk@.subrange(0, chunk@.len() as int) =~= chunk@);
            },
            _ => {},
        }
        chunk.len() == 0
    }

    /// Harvests the descriptor's result after its child ended, releasing what
    /// the action owns.  `harvest` is the content of the temporary file, for
    /// a temporary-file capture.
    pub fn clean_up_in_parent(self, harvest: Harvest) -> (r: Result<Option<FdRes>, String>)
        requires
            self.stage == Stage::Running,
            harvest_fits(self, harvest),
        ensures
            clean_up_result(clean_up_spec(self, harvest), r),
    {
        match self.action {
            Action::File { path, .. } => Ok(Some(FdRes::File { path })),
            Action::TempFileCapture { format, .. } => match harvest {
                Harvest::Bytes(b) => bytes_result(format, b),
                Harvest::Failed(m) => Err(m),
                Harvest::Nothing => Ok(None),
            },
            Action::MemoryCapture(m) => bytes_result(m.format, m.buf),
            _ => Ok(None),
        }
    }
}

/// The bytes of `chunks`, one after another.
pub open spec fn concat_chunks(chunks: Seq<Seq<u8>>) -> Seq<u8>
    decreases chunks.len(),
{
    if chunks.len() == 0 {
        Seq::empty()
    } else {
        concat_chunks(chunks.drop_last()) + chunks.last()
    }
}

/// An in-memory capture that starts empty and takes `chunks` in turn, in
/// `states`, holds exactly their bytes, in order; cleaning it up yields them
/// in its format, so a text capture yields the lossy UTF-8 decoding of
/// exactly those bytes.
pub proof fn lemma_capture_exact(states: Seq<Fd>, chunks: Seq<Seq<u8>>)
    requires
        states.len() == chunks.len() + 1,
        states[0].action matches Action::MemoryCapture(m) && m.buf@.len() == 0,
        forall|i: int| 0 <= i < chunks.len() ==> capture_read_spec(#[trigger] states[i], states[i + 1], chunks[i]),
    ensures
        states.last().action matches Action::MemoryCapture(m) && m.buf@ == concat_chunks(chunks)
            && m.format == states[0].action->MemoryCapture_0.format,
        clean_up_spec(states.last(), Harvest::Nothing) == captured(
            states[0].action->MemoryCapture_0.format,
            concat_chunks(chunks),
        ),
        states[0].action->MemoryCapture_0.format == CaptureFormat::Text ==> clean_up_spec(
            states.last(),
            Harvest::Nothing,
        ) == CleanUp::Entry(FdResView::Text(lossy_utf8(concat_chunks(chunks)))),
    decreases chunks.len(),
{
    if chunks.len() == 0 {
        assert(concat_chunks(chunks) =~= Seq::<u8>::empty());
        assert(states.last() == states[0]);
    } else {
        let n = chunks.len() - 1;
        let s2 = states.drop_last();
        let c2 = chunks.drop_last();
        assert(s2[0] == states[0]);
        assert forall|i: int| 0 <= i < c2.len() implies capture_read_spec(#[trigger] s2[i], s2[i + 1], c2[i]) by {
            assert(s2[i] == states[i] && s2[i + 1] == states[i + 1] && c2[i] == chunks[i]);
        }
        lemma_capture_exact(s2, c2);
        assert(capture_read_spec(states[n], states[n + 1], chunks[n]));
        assert(s2.last() == states[n]);
        assert(states.last() == states[n + 1]);
        assert(chunks.last() == chunks[n]);
        assert(concat_chunks(chunks) == concat_chunks(c2) + chunks[n]);
    }
    let m = states.last().action->MemoryCapture_0;
    assert(m.buf@ == concat_chunks(chunks));
    assert(m.format == states[0].action->MemoryCapture_0.format);
    assert(clean_up_spec(states.last(), Harvest::Nothing) == captured(m.format, m.buf@));
}

fn bytes_result(format: CaptureFormat, b: Vec<u8>) -> (r: Result<Option<FdRes>, String>)
    ensures
        clean_up_result(captured(format, b@), r),
{
    let too_big = match format {
        CaptureFormat::Base64 => b.len() > (usize::MAX / 4) * 3,
        CaptureFormat::Text => false,
    };
    if too_big {
        Err(String::from_str("captured output too large to encode"))
    } else {
        let r = FdRes::from_bytes(format, b);
        Ok(Some(r))
    }
}

} // verus!
