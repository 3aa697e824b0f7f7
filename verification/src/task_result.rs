//! The per-task result shape shared by execution, the watcher state and
//! presentation.
use vstd::prelude::*;

verus! {

/// Wire-level task state. Work skipped by fail-fast is reported as
/// `Cancelled`.
#[derive(Clone, Copy, Debug, PartialEq, Eq, Structural)]
pub enum TaskState {
    Passed,
    Failed,
    Cancelled,
    /// Distinct from a command failure and from a client-await timeout.
    TimedOut,
}

/// One task's terminal outcome. `position` is the configured declaration
/// position: it orders in-process reports and is not part of the wire shape.
#[derive(Clone, Debug, PartialEq, Eq)]
pub struct TaskSnapshot {
    pub position: usize,
    pub id: String,
    pub name: String,
    pub state: TaskState,
    pub duration_ms: Option<u64>,
}


} // verus!
