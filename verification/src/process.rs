//! What is known of one run of the external tool once it is over.

use vstd::prelude::*;

verus! {

/// The exit status and captured streams of a process that ran to its end.
#[derive(Clone, Debug, PartialEq, Eq)]
pub struct ProcessOutput {
    /// Whether the process exited with status zero.
    pub success: bool,
    /// Everything the process wrote to standard output.
    pub stdout: Vec<u8>,
    /// Everything the process wrote to standard error.
    pub stderr: Vec<u8>,
}

/// How far a run of the tool got. The three failures carry the operating
/// system's description of what went wrong.
#[derive(Clone, Debug, PartialEq, Eq)]
pub enum Run {
    /// The process could not be started.
    SpawnFailed(String),
    /// The process started, but its input could not be written in full.
    WriteFailed(String),
    /// The input was written, but waiting for the exit failed.
    WaitFailed(String),
    /// The process ran to its end.
    Exited(ProcessOutput),
}

} // verus!
