//! Launches and supervises a declared set of child processes.
//!
//! The library holds the decisions of the supervisor: the process
//! specification model, the per-descriptor actions and their lifecycle, the
//! framing of the parent/child error channel, the readiness-multiplexer
//! registry, the process table with its reap bookkeeping, and the assembly of
//! the final result.  The system calls themselves are performed by the caller,
//! which hands their outcomes back as plain values.

pub mod spec;
pub mod fd;
pub mod res;
pub mod fdio;
pub mod err_pipe;
pub mod procs;
pub mod sel;
pub mod run;
pub mod environ;
