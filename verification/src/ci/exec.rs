//! What running a solution once gives back.
use vstd::prelude::*;

verus! {

/// How a run ended.
#[derive(Clone, Copy, Debug, PartialEq, Eq)]
pub enum ExitKind {
    /// The process ended by itself.
    Normal,
    /// The process was stopped when it ran out of time.
    TimeLimitExceeded,
}

/// The result of running a solution on one input.
#[derive(Debug)]
pub struct ExecutionOutput {
    pub stdout: String,
    pub stderr: String,
    /// Whether the process exited with a success status.
    pub success: bool,
    pub time: std::time::Duration,
    pub exit_kind: ExitKind,
}

} // verus!
