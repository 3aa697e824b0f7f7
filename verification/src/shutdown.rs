//! Shutdown reasons and the decision core of the one shared close sequence:
//! the first request freezes the reason, the readiness and the committed
//! close hook; later requests never change them. Reaping, waiting and
//! running the hook are performed by the caller.
use vstd::prelude::*;

use crate::text::owned;

verus! {

#[derive(Clone, Debug, PartialEq, Eq)]
pub enum ShutdownReason {
    Normal,
    Signal { name: &'static str, exit_code: i32 },
    FatalConfig { detail: String, exit_code: i32 },
    Operational { detail: String, exit_code: i32 },
}

pub open spec fn exit_code_spec(r: ShutdownReason) -> i32 {
    match r {
        ShutdownReason::Normal => 0,
        ShutdownReason::Signal { exit_code, .. } => exit_code,
        ShutdownReason::FatalConfig { exit_code, .. } => exit_code,
        ShutdownReason::Operational { exit_code, .. } => exit_code,
    }
}

pub open spec fn label_spec(r: ShutdownReason) -> Seq<char> {
    match r {
        ShutdownReason::Normal => "normal"@,
        ShutdownReason::Signal { name, .. } => name@,
        ShutdownReason::FatalConfig { detail, .. } => "configInvalid: "@ + detail@,
        ShutdownReason::Operational { detail, .. } => "operational: "@ + detail@,
    }
}

impl ShutdownReason {
    pub fn exit_code(&self) -> (r: i32)
        ensures
            r == exit_code_spec(*self),
    {
        match self {
            ShutdownReason::Normal => 0,
            ShutdownReason::Signal { exit_code, .. } => *exit_code,
            ShutdownReason::FatalConfig { exit_code, .. } => *exit_code,
            ShutdownReason::Operational { exit_code, .. } => *exit_code,
        }
    }

    pub fn label(&self) -> (r: String)
        ensures
            r@ == label_spec(*self),
    {
        match self {
            ShutdownReason::Normal => owned("normal"),
            ShutdownReason::Signal { name, .. } => owned(name),
            ShutdownReason::FatalConfig { detail, .. } => {
                let mut s = owned("configInvalid: ");
                s.append(detail.as_str());
                s
            },
            ShutdownReason::Operational { detail, .. } => {
                let mut s = owned("operational: ");
                s.append(detail.as_str());
                s
            },
        }
    }

    /// A copy of this reason.
    pub fn duplicate(&self) -> (r: ShutdownReason)
        ensures
            r == *self,
    {
        match self {
            ShutdownReason::Normal => ShutdownReason::Normal,
            ShutdownReason::Signal { name, exit_code } => ShutdownReason::Signal {
                name: *name,
                exit_code: *exit_code,
            },
            ShutdownReason::FatalConfig { detail, exit_code } => ShutdownReason::FatalConfig {
                detail: detail.clone(),
                exit_code: *exit_code,
            },
            ShutdownReason::Operational { detail, exit_code } => ShutdownReason::Operational {
                detail: detail.clone(),
                exit_code: *exit_code,
            },
        }
    }
}

#[derive(Clone, Debug, PartialEq, Eq)]
pub enum CloseHookOutcome {
    NotConfigured,
    SkippedBeforeReady,
    Passed,
    Failed(String),
    TimedOut,
    Cancelled,
}

#[derive(Clone, Debug, PartialEq, Eq)]
pub struct ShutdownCompletion {
    pub reason: ShutdownReason,
    pub hook: CloseHookOutcome,
}

/// The claimed shutdown: its reason and the close hook frozen with it.
#[derive(Clone, Debug, PartialEq, Eq)]
pub struct Requested {
    pub reason: ShutdownReason,
    pub hook: Option<String>,
}

#[derive(Clone, Debug, PartialEq, Eq)]
pub enum Phase {
    Running,
    Requested(Requested),
    /// One caller is running the close sequence for this reason.
    Finishing(ShutdownReason),
    Finished(ShutdownCompletion),
}

/// Decision state of the shared close sequence.
pub struct ShutdownState {
    pub phase: Phase,
    pub ready: bool,
    pub committed_close: Option<String>,
}

/// What the caller does next when it wants to finish.
pub enum FinishStep {
    /// Run the close sequence for this request; `skipped_before_ready`
    /// means a configured hook is skipped because readiness never came.
    Proceed { requested: Requested, skipped_before_ready: bool },
    /// Another caller is finishing: wait for its completion.
    Wait,
    /// Already finished with this completion.
    Done(ShutdownCompletion),
}

/// The hook frozen by a request: the committed close hook, only once the
/// watcher became ready.
pub open spec fn frozen_hook(ready: bool, committed: Option<String>) -> Option<String> {
    if ready {
        committed
    } else {
        None
    }
}

fn clone_opt(o: &Option<String>) -> (r: Option<String>)
    ensures
        r == *o,
{
    match o {
        Some(s) => Some(s.clone()),
        None => None,
    }
}

impl ShutdownState {
    pub fn new(close_hook: Option<String>) -> (r: Self)
        ensures
            r.phase == Phase::Running,
            !r.ready,
            r.committed_close == close_hook,
    {
        ShutdownState { phase: Phase::Running, ready: false, committed_close: close_hook }
    }

    /// Readiness is truthful only after filesystem watches and the control
    /// surface are registered; it is recorded only while still running.
    pub fn mark_ready(&mut self)
        ensures
            final(self).phase == old(self).phase,
            final(self).committed_close == old(self).committed_close,
            final(self).ready == (old(self).ready || old(self).phase == Phase::Running),
    {
        if let Phase::Running = self.phase {
            self.ready = true;
        }
    }

    /// A valid reload commit replaces the future close hook, only while no
    /// shutdown reason is claimed.
    pub fn update_hooks(&mut self, close_hook: Option<String>)
        ensures
            final(self).phase == old(self).phase,
            final(self).ready == old(self).ready,
            final(self).committed_close == if old(self).phase == Phase::Running {
                close_hook
            } else {
                old(self).committed_close
            },
    {
        if let Phase::Running = self.phase {
            self.committed_close = close_hook;
        }
    }

    /// Claims shutdown. Returns `(first, accelerate)`: `first` when this
    /// request froze the reason; `accelerate` when a later signal asks an
    /// in-flight hook to stop promptly.
    pub fn request(&mut self, reason: ShutdownReason) -> (r: (bool, bool))
        ensures
            r.0 == (old(self).phase == Phase::Running),
            final(self).phase == request_phase(
                old(self).phase,
                old(self).ready,
                old(self).committed_close,
                reason,
            ),
            r.1 == (!r.0 && reason is Signal),
            final(self).ready == old(self).ready,
            final(self).committed_close == old(self).committed_close,
    {
        if let Phase::Running = self.phase {
            let hook = if self.ready {
                clone_opt(&self.committed_close)
            } else {
                None
            };
            self.phase = Phase::Requested(Requested { reason, hook });
            (true, false)
        } else {
            let accelerate = match reason {
                ShutdownReason::Signal { .. } => true,
                _ => false,
            };
            (false, accelerate)
        }
    }

    /// Starts finishing: the first caller proceeds with the claimed request
    /// (a normal shutdown when none was claimed); later callers wait or
    /// receive the completion.
    pub fn begin_finish(&mut self) -> (r: FinishStep)
        ensures
            final(self).ready == old(self).ready,
            final(self).committed_close == old(self).committed_close,
            match old(self).phase {
                Phase::Running => final(self).phase == Phase::Finishing(ShutdownReason::Normal)
                    && r == FinishStep::Proceed {
                    requested: Requested {
                        reason: ShutdownReason::Normal,
                        hook: frozen_hook(old(self).ready, old(self).committed_close),
                    },
                    skipped_before_ready: !old(self).ready && old(self).committed_close is Some,
                },
                Phase::Requested(q) => final(self).phase == Phase::Finishing(q.reason)
                    && r == FinishStep::Proceed {
                    requested: q,
                    skipped_before_ready: !old(self).ready && old(self).committed_close is Some,
                },
                Phase::Finishing(_) => final(self).phase == old(self).phase && r == FinishStep::Wait,
                Phase::Finished(c) => final(self).phase == old(self).phase && r
                    == FinishStep::Done(c),
            },
    {
        let skipped = !self.ready && self.committed_close.is_some();
        match &self.phase {
            Phase::Running => {
                let hook = if self.ready {
                    clone_opt(&self.committed_close)
                } else {
                    None
                };
                self.phase = Phase::Finishing(ShutdownReason::Normal);
                FinishStep::Proceed {
                    requested: Requested { reason: ShutdownReason::Normal, hook },
                    skipped_before_ready: skipped,
                }
            },
            Phase::Requested(q) => {
                let requested = Requested { reason: q.reason.duplicate(), hook: clone_opt(&q.hook) };
                self.phase = Phase::Finishing(q.reason.duplicate());
                FinishStep::Proceed { requested, skipped_before_ready: skipped }
            },
            Phase::Finishing(_) => FinishStep::Wait,
            Phase::Finished(c) => FinishStep::Done(
                ShutdownCompletion {
                    reason: c.reason.duplicate(),
                    hook: match &c.hook {
                        CloseHookOutcome::Failed(m) => CloseHookOutcome::Failed(m.clone()),
                        CloseHookOutcome::NotConfigured => CloseHookOutcome::NotConfigured,
                        CloseHookOutcome::SkippedBeforeReady => CloseHookOutcome::SkippedBeforeReady,
                        CloseHookOutcome::Passed => CloseHookOutcome::Passed,
                        CloseHookOutcome::TimedOut => CloseHookOutcome::TimedOut,
                        CloseHookOutcome::Cancelled => CloseHookOutcome::Cancelled,
                    },
                },
            ),
        }
    }

    /// Records the one completion every caller receives: the reason being
    /// finished with the outcome of its close hook. Outside the finishing
    /// phase nothing changes.
    pub fn complete(&mut self, hook: CloseHookOutcome)
        ensures
            final(self).phase == complete_phase(old(self).phase, hook),
            final(self).ready == old(self).ready,
            final(self).committed_close == old(self).committed_close,
    {
        match &self.phase {
            Phase::Finishing(reason) => {
                let requested = Requested { reason: reason.duplicate(), hook: None };
                self.phase = Phase::Finished(completion_for(&requested, hook));
            },
            _ => {},
        }
    }
}

/// The completion of a claimed request: its reason, whatever the close hook
/// did.
pub fn completion_for(requested: &Requested, hook: CloseHookOutcome) -> (r: ShutdownCompletion)
    ensures
        r.reason == requested.reason,
        r.hook == hook,
{
    ShutdownCompletion { reason: requested.reason.duplicate(), hook }
}

/// The phase after the first finisher proceeds.
pub open spec fn finish_phase(p: Phase) -> Phase {
    match p {
        Phase::Running => Phase::Finishing(ShutdownReason::Normal),
        Phase::Requested(q) => Phase::Finishing(q.reason),
        _ => p,
    }
}

/// The phase after the close sequence completes with a hook outcome.
pub open spec fn complete_phase(p: Phase, hook: CloseHookOutcome) -> Phase {
    match p {
        Phase::Finishing(reason) => Phase::Finished(ShutdownCompletion { reason, hook }),
        _ => p,
    }
}

/// The phase after a shutdown request.
pub open spec fn request_phase(
    p: Phase,
    ready: bool,
    committed: Option<String>,
    reason: ShutdownReason,
) -> Phase {
    if p == Phase::Running {
        Phase::Requested(Requested { reason, hook: frozen_hook(ready, committed) })
    } else {
        p
    }
}

/// The first claimed shutdown is final: a later request, whatever its
/// reason and whatever hook was committed meanwhile, keeps the first
/// reason and the hook frozen with it.
pub proof fn law_first_request_is_frozen(
    ready: bool,
    committed: Option<String>,
    first: ShutdownReason,
    later_committed: Option<String>,
    later: ShutdownReason,
)
    ensures
        request_phase(
            request_phase(Phase::Running, ready, committed, first),
            ready,
            later_committed,
            later,
        ) == Phase::Requested(Requested { reason: first, hook: frozen_hook(ready, committed) }),
{
}

/// The close sequence completes once: after completion no request changes
/// the outcome, so every later finisher receives the same completion.
pub proof fn law_completion_is_final(
    c: ShutdownCompletion,
    ready: bool,
    committed: Option<String>,
    reason: ShutdownReason,
)
    ensures
        request_phase(Phase::Finished(c), ready, committed, reason) == Phase::Finished(c),
        request_phase(Phase::Finishing(reason), ready, committed, reason) == Phase::Finishing(
            reason,
        ),
{
}

/// Every finisher receives a completion carrying the first requested
/// reason (a normal shutdown when none was requested): later requests and
/// the close hook's outcome, failing or not, never change it.
pub proof fn law_finishers_receive_first_reason(
    ready: bool,
    committed: Option<String>,
    first: ShutdownReason,
    later: Seq<ShutdownReason>,
    hook: CloseHookOutcome,
)
    ensures
        complete_phase(
            finish_phase(requests_phase(request_phase(Phase::Running, ready, committed, first), ready, committed, later)),
            hook,
        ) == Phase::Finished(ShutdownCompletion { reason: first, hook }),
        complete_phase(finish_phase(Phase::Running), hook) == Phase::Finished(
            ShutdownCompletion { reason: ShutdownReason::Normal, hook },
        ),
{
    lemma_later_requests_keep_phase(request_phase(Phase::Running, ready, committed, first), ready, committed, later);
}

/// A run of requests, in order.
pub open spec fn requests_phase(
    p: Phase,
    ready: bool,
    committed: Option<String>,
    reasons: Seq<ShutdownReason>,
) -> Phase
    decreases reasons.len(),
{
    if reasons.len() == 0 {
        p
    } else {
        request_phase(requests_phase(p, ready, committed, reasons.drop_last()), ready, committed, reasons.last())
    }
}

proof fn lemma_later_requests_keep_phase(
    p: Phase,
    ready: bool,
    committed: Option<String>,
    reasons: Seq<ShutdownReason>,
)
    requires
        p != Phase::Running,
    ensures
        requests_phase(p, ready, committed, reasons) == p,
    decreases reasons.len(),
{
    if reasons.len() > 0 {
        lemma_later_requests_keep_phase(p, ready, committed, reasons.drop_last());
    }
}


/// Where the shared reap of owned work stands: not started, running in the
/// caller that claimed it, or done.
#[derive(Clone, Copy, Debug, PartialEq, Eq, Structural)]
pub enum ReapPhase {
    Idle,
    Running,
    Done,
}

/// The exactly-once guard around the reap: a request and every finisher try
/// to claim it; only the first claim runs the reap, and a finisher that
/// finds it running waits until it is done.
pub struct ReapGate {
    pub phase: ReapPhase,
}

impl ReapGate {
    pub fn new() -> (r: Self)
        ensures
            r.phase == ReapPhase::Idle,
    {
        ReapGate { phase: ReapPhase::Idle }
    }

    /// Claims the reap: granted only while nobody has started it.
    pub fn claim(&mut self) -> (granted: bool)
        ensures
            (final(self).phase, granted) == reap_step(old(self).phase, ReapOp::Claim),
    {
        if self.phase == ReapPhase::Idle {
            self.phase = ReapPhase::Running;
            true
        } else {
            false
        }
    }

    /// The claimed reap is over; waiting finishers may proceed.
    pub fn finish(&mut self)
        ensures
            final(self).phase == reap_step(old(self).phase, ReapOp::Finish).0,
    {
        if self.phase == ReapPhase::Running {
            self.phase = ReapPhase::Done;
        }
    }

    /// Whether a finisher that was denied the claim must wait for the reap.
    pub fn must_wait(&self) -> (r: bool)
        ensures
            r == (self.phase == ReapPhase::Running),
    {
        self.phase == ReapPhase::Running
    }
}

/// A caller's move on the reap guard.
pub enum ReapOp {
    Claim,
    Finish,
}

/// A step on the guard: the phase after it, and whether a claim succeeded.
pub open spec fn reap_step(p: ReapPhase, op: ReapOp) -> (ReapPhase, bool) {
    match op {
        ReapOp::Claim => if p == ReapPhase::Idle {
            (ReapPhase::Running, true)
        } else {
            (p, false)
        },
        ReapOp::Finish => if p == ReapPhase::Running {
            (ReapPhase::Done, false)
        } else {
            (p, false)
        },
    }
}

/// The moves of any interleaving of callers, in order: the final phase and
/// how many claims were granted.
pub open spec fn reap_run(p: ReapPhase, ops: Seq<ReapOp>) -> (ReapPhase, nat)
    decreases ops.len(),
{
    if ops.len() == 0 {
        (p, 0)
    } else {
        let (q, n) = reap_run(p, ops.drop_last());
        let (r, granted) = reap_step(q, ops.last());
        (r, if granted {
            n + 1
        } else {
            n
        })
    }
}

/// The reap runs exactly once: however requests and finishers interleave
/// their claims and completions on a fresh guard, exactly one claim is
/// granted once anybody has claimed, and none before.
pub proof fn law_reap_runs_exactly_once(ops: Seq<ReapOp>)
    ensures
        reap_run(ReapPhase::Idle, ops).1 == if exists|i: int| 0 <= i < ops.len() && #[trigger] ops[i] is Claim {
            1nat
        } else {
            0nat
        },
        reap_run(ReapPhase::Idle, ops).0 == ReapPhase::Idle <==> !exists|i: int| 0 <= i < ops.len() && #[trigger] ops[i] is Claim,
    decreases ops.len(),
{
    if ops.len() > 0 {
        let prev = ops.drop_last();
        law_reap_runs_exactly_once(prev);
        if exists|i: int| 0 <= i < prev.len() && #[trigger] prev[i] is Claim {
            let i = choose|i: int| 0 <= i < prev.len() && #[trigger] prev[i] is Claim;
            assert(ops[i] is Claim);
        }
        if exists|i: int| 0 <= i < ops.len() && #[trigger] ops[i] is Claim {
            let i = choose|i: int| 0 <= i < ops.len() && #[trigger] ops[i] is Claim;
            if i < ops.len() - 1 {
                assert(prev[i] is Claim);
            }
        } else {
            assert(!(ops.last() is Claim));
            assert forall|i: int| 0 <= i < prev.len() implies !(#[trigger] prev[i] is Claim) by {
                assert(ops[i] == prev[i]);
            }
        }
    }
}

} // verus!
