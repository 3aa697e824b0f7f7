//! The execution engine's vocabulary: lifecycle events, recovery requests
//! and decisions, and how a run's cancellation ended.
use std::sync::atomic::AtomicBool;
use std::sync::Arc;
use vstd::prelude::*;

pub use crate::task_result::{TaskSnapshot, TaskState};

use crate::plan::RunOutcome;

verus! {

/// Cancellation signal shared by the scheduler, the executor and the
/// approval adapter, so a replacement or an exact cancel can interrupt a
/// blocking recovery boundary. Clones share one flag; what a read returns
/// depends on the other holders, so nothing is stated of it.
#[derive(Clone, Debug)]
pub struct CancellationToken(Arc<AtomicBool>);

impl CancellationToken {
    /// A fresh signal, not cancelled.
    pub fn new() -> Self {
        CancellationToken(Arc::new(AtomicBool::new(false)))
    }

    /// Raises the signal for every holder.
    pub fn cancel(&self) {
        self.0.store(true, std::sync::atomic::Ordering::SeqCst);
    }

    /// Whether some holder raised the signal.
    pub fn is_cancelled(&self) -> bool {
        self.0.load(std::sync::atomic::Ordering::SeqCst)
    }
}

impl Default for CancellationToken {
    fn default() -> Self {
        CancellationToken::new()
    }
}

/// One exact generation/job recovery approval request. The command text is
/// rendered for the attached user but never used as an authorization key.
#[derive(Clone, Debug, PartialEq, Eq)]
pub struct RecoveryRequest {
    pub generation: u64,
    pub revision: Option<u64>,
    pub job_position: usize,
    pub job: String,
    pub commands: Vec<String>,
}

#[derive(Clone, Copy, Debug, PartialEq, Eq, Structural)]
pub enum ApprovalDecision {
    Approved,
    Declined,
    NoTty,
    Eof,
    Invalid,
    TimedOut,
    Cancelled,
}

/// Asks the attached user whether the recovery commands of the given jobs
/// may run. Implementations may block until `timeout_ms` elapses or the
/// cancellation signal is raised.
pub trait RecoveryApproval {
    fn approve(
        &self,
        requests: &[RecoveryRequest],
        cancellation: &CancellationToken,
        timeout_ms: u64,
    ) -> ApprovalDecision;
}

/// Safe default approver used by headless composition until a terminal
/// adapter is injected.
#[derive(Clone, Copy, Debug, Default, PartialEq, Eq)]
pub struct DenyRecoveryApproval;

/// The default approver's answer: a cancelled recovery boundary is reported
/// as cancelled; any other request is declined.
pub fn deny_decision(cancelled: bool) -> (r: ApprovalDecision)
    ensures
        r == (if cancelled { ApprovalDecision::Cancelled } else { ApprovalDecision::Declined }),
{
    if cancelled {
        ApprovalDecision::Cancelled
    } else {
        ApprovalDecision::Declined
    }
}

impl RecoveryApproval for DenyRecoveryApproval {
    /// Never approves: the answer is `deny_decision` of the signal's state
    /// when asked.
    fn approve(
        &self,
        _requests: &[RecoveryRequest],
        cancellation: &CancellationToken,
        _timeout_ms: u64,
    ) -> (r: ApprovalDecision)
        ensures
            r == ApprovalDecision::Cancelled || r == ApprovalDecision::Declined,
    {
        deny_decision(cancellation.is_cancelled())
    }
}

/// Receives the executor's lifecycle events.
pub trait EventSink {
    fn emit(&self, event: Event);
}

/// Lifecycle events of one generation, in the order the executor emits
/// them. Elapsed time is carried in whole milliseconds.
#[derive(Clone, Debug)]
pub enum Event {
    Started {
        run_id: u64,
        trigger: String,
        /// Debounce batch identity, when scheduled from a filesystem batch.
        batch: Option<u64>,
        /// Generation this run replaces, when known at start.
        predecessor: Option<u64>,
        /// Complete normalized changed-path set of the triggering batch.
        changed: Vec<String>,
        commands: Vec<String>,
        /// Exact configured target name for target runs.
        target: Option<String>,
        /// `Some(1)` for a sequential override generation; `None` means
        /// the configured bound.
        effective_concurrency: Option<usize>,
        /// Override source label, such as "control".
        concurrency_source: Option<&'static str>,
        /// Immutable config revision this generation was frozen under.
        revision: Option<u64>,
        /// Non-secret semantic hash of that revision.
        revision_hash: Option<String>,
    },
    Finished {
        run_id: u64,
        /// Generation that superseded this one, when replaced.
        superseded_by: Option<u64>,
        elapsed_ms: u64,
        failures: Vec<String>,
    },
    Cancelled {
        run_id: u64,
        /// Generation that superseded this one, when replaced.
        superseded_by: Option<u64>,
    },
    Tick {
        task: String,
        group_occurrence: Option<String>,
    },
    /// One task reached a terminal outcome within a generation.
    TaskTerminal { run_id: u64, task: TaskSnapshot },
    /// Non-terminal recovery lifecycle evidence for one generation/job.
    RecoveryPhase { run_id: u64, job: String, phase: String, outcome: Option<String> },
}

/// How a run cancellation ended: graceful when every active child
/// terminated after the first signal within the grace period, escalated
/// when at least one child had to be killed.
#[derive(Clone, Copy, Debug, PartialEq, Eq, Structural)]
pub enum CancelDisposition {
    Graceful,
    Escalated,
}

/// Whether a run still has work after one scheduling step.
#[derive(Clone, Copy, Debug, PartialEq, Eq, Structural)]
pub enum Step {
    Running,
    Finished,
}

/// A settled failure hook the worker runs after publishing the outcome.
/// The settle delay is in milliseconds.
#[derive(Clone, Debug, PartialEq, Eq)]
pub struct PendingSettledHook {
    pub run_id: u64,
    pub command: String,
    pub settle_ms: u64,
    pub revision: u64,
    pub revision_hash: String,
}

/// What a finished run hands back: per-command results, wall time in
/// milliseconds, the combined outcome, a settled hook to coordinate, and the
/// terminal job snapshots in declaration order.
#[derive(Clone, Debug)]
pub struct CompletedRun {
    pub results: Vec<Result<(), String>>,
    pub elapsed_ms: u64,
    pub outcome: RunOutcome,
    pub pending_settled_hook: Option<PendingSettledHook>,
    pub tasks: Vec<TaskSnapshot>,
}

} // verus!
