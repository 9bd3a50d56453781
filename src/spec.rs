//! The declarative description of the processes to run.

use vstd::prelude::*;

verus! {

/// Which variables of the parent's environment a child inherits.
#[derive(Debug)]
pub enum EnvInherit {
    /// Inherit no variable.
    Nothing,
    /// Inherit every variable.
    All,
    /// Inherit only the named variables.
    Vars(Vec<String>),
}

impl Default for EnvInherit {
    fn default() -> (r: Self)
        ensures
            r is All,
    {
        EnvInherit::All
    }
}

/// The environment of a child: an inherit policy and explicit overrides.
#[derive(Debug)]
pub struct Env {
    pub inherit: EnvInherit,
    /// Explicit variables, as (name, value) pairs.
    pub vars: Vec<(String, String)>,
}

impl Default for Env {
    fn default() -> (r: Self)
        ensures
            r.inherit is All,
            r.vars@.len() == 0,
    {
        Env { inherit: EnvInherit::All, vars: Vec::new() }
    }
}

/// How a file named by a descriptor specification is opened.
#[derive(Clone, Copy, Debug, PartialEq, Eq, Structural)]
pub enum OpenFlag {
    /// Read for descriptor 0, write for 1 and 2, read-write otherwise.
    Default,
    /// Open an existing file for reading.
    Read,
    /// Create or open an existing file for writing.
    Write,
    /// Create a new file for writing; the file may not exist.
    Create,
    /// Overwrite an existing file for writing; the file must exist.
    Replace,
    /// Create or open an existing file for appending.
    CreateAppend,
    /// Open an existing file for appending.
    Append,
    /// Create or open an existing file for reading and writing.
    ReadWrite,
}

impl Default for OpenFlag {
    fn default() -> (r: Self)
        ensures
            r == OpenFlag::Default,
    {
        OpenFlag::Default
    }
}

/// Where captured output is buffered.
#[derive(Clone, Copy, Debug, PartialEq, Eq, Structural)]
pub enum CaptureMode {
    TempFile,
    Memory,
}

impl Default for CaptureMode {
    fn default() -> (r: Self)
        ensures
            r == CaptureMode::TempFile,
    {
        CaptureMode::TempFile
    }
}

/// How captured bytes are presented in the result.
#[derive(Clone, Copy, Debug, PartialEq, Eq, Structural)]
pub enum CaptureFormat {
    Text,
    Base64,
}

impl Default for CaptureFormat {
    fn default() -> (r: Self)
        ensures
            r == CaptureFormat::Text,
    {
        CaptureFormat::Text
    }
}

/// The permission bits with which a file is created when none are given.
pub fn get_default_mode() -> (r: i32)
    ensures
        r == 0o666,
{
    0o666
}

/// What to do with one descriptor of a child.
#[derive(Debug)]
#[allow(inconsistent_fields)]
pub enum Fd {
    /// Inherit this descriptor from the parent, if any.
    Inherit,
    /// Close this descriptor, if it is open.
    Close,
    /// Open this descriptor to the null device.
    Null { flags: OpenFlag },
    /// Open this descriptor to a file.
    File { path: String, flags: OpenFlag, mode: i32 },
    /// Duplicate another existing descriptor onto this one.
    Dup { fd: i32 },
    /// Capture output written to this descriptor and include it in the result.
    Capture { mode: CaptureMode, format: CaptureFormat },
}

impl Default for Fd {
    fn default() -> (r: Self)
        ensures
            r is Inherit,
    {
        Fd::Inherit
    }
}

/// One process to run.
#[derive(Debug)]
pub struct Proc {
    /// Program and arguments; the first names the executable.
    pub argv: Vec<String>,
    pub env: Env,
    /// Declared descriptors, as (descriptor name or number, action).
    pub fds: Vec<(String, Fd)>,
}

impl Default for Proc {
    fn default() -> (r: Self)
        ensures
            r.argv@.len() == 0,
            r.env.inherit is All,
            r.env.vars@.len() == 0,
            r.fds@.len() == 0,
    {
        Proc { argv: Vec::new(), env: Env::default(), fds: Vec::new() }
    }
}

/// The whole run: the processes, in declaration order.
#[derive(Debug)]
pub struct Input {
    pub procs: Vec<Proc>,
}

} // verus!
