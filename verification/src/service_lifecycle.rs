//! Deterministic service-readiness arbitration primitives.
//!
//! The worker owns process handles; this module owns only the precedence
//! rules used when commands and child observations arrive in one worker
//! cycle.
use vstd::prelude::*;

verus! {

/// Commands accepted by the worker before an observation-cycle marker.
#[derive(Clone, Copy, Debug, PartialEq, Eq, Structural)]
pub enum ArbitrationCommand {
    Shutdown,
    Cancel,
    Supersede,
    ReloadReplacement,
}

/// Child facts observed during one deterministic worker cycle.
#[derive(Clone, Copy, Debug, PartialEq, Eq, Structural)]
pub enum ChildObservation {
    ServiceExit,
    ReadinessTimeout,
    ReadinessExit { success: bool },
}

/// The single fact allowed to affect a starting service in one cycle.
#[derive(Clone, Copy, Debug, PartialEq, Eq, Structural)]
pub enum ArbitrationDecision {
    Shutdown,
    Cancelled,
    Superseded,
    ReloadReplacement,
    ServiceExited,
    ReadinessTimedOut,
    ReadinessPassed,
    RetryReadiness,
    Noop,
}

/// The decision for one cycle: commands outrank child facts; within each
/// class a fixed precedence applies, never arrival order.
pub open spec fn resolve_spec(
    commands: Seq<ArbitrationCommand>,
    observations: Seq<ChildObservation>,
) -> ArbitrationDecision {
    if commands.contains(ArbitrationCommand::Shutdown) {
        ArbitrationDecision::Shutdown
    } else if commands.contains(ArbitrationCommand::Cancel) {
        ArbitrationDecision::Cancelled
    } else if commands.contains(ArbitrationCommand::Supersede) {
        ArbitrationDecision::Superseded
    } else if commands.contains(ArbitrationCommand::ReloadReplacement) {
        ArbitrationDecision::ReloadReplacement
    } else if observations.contains(ChildObservation::ServiceExit) {
        ArbitrationDecision::ServiceExited
    } else if observations.contains(ChildObservation::ReadinessTimeout) {
        ArbitrationDecision::ReadinessTimedOut
    } else if observations.contains(ChildObservation::ReadinessExit { success: true }) {
        ArbitrationDecision::ReadinessPassed
    } else if observations.contains(ChildObservation::ReadinessExit { success: false }) {
        ArbitrationDecision::RetryReadiness
    } else {
        ArbitrationDecision::Noop
    }
}

/// Stateless precedence resolver.
pub struct ReadinessArbiter;

fn has_command(commands: &[ArbitrationCommand], c: ArbitrationCommand) -> (r: bool)
    ensures
        r == commands@.contains(c),
{
    let mut i: usize = 0;
    while i < commands.len()
        invariant
            i <= commands@.len(),
            forall|k: int| 0 <= k < i ==> commands@[k] != c,
        decreases commands@.len() - i,
    {
        if commands[i] == c {
            assert(commands@[i as int] == c);
            return true;
        }
        i = i + 1;
    }
    false
}

fn has_observation(observations: &[ChildObservation], o: ChildObservation) -> (r: bool)
    ensures
        r == observations@.contains(o),
{
    let mut i: usize = 0;
    while i < observations.len()
        invariant
            i <= observations@.len(),
            forall|k: int| 0 <= k < i ==> observations@[k] != o,
        decreases observations@.len() - i,
    {
        if observations[i] == o {
            assert(observations@[i as int] == o);
            return true;
        }
        i = i + 1;
    }
    false
}

impl ReadinessArbiter {
    pub fn new() -> (r: Self) {
        ReadinessArbiter
    }

    pub fn resolve(
        commands: &[ArbitrationCommand],
        observations: &[ChildObservation],
    ) -> (r: ArbitrationDecision)
        ensures
            r == resolve_spec(commands@, observations@),
    {
        if has_command(commands, ArbitrationCommand::Shutdown) {
            return ArbitrationDecision::Shutdown;
        }
        if has_command(commands, ArbitrationCommand::Cancel) {
            return ArbitrationDecision::Cancelled;
        }
        if has_command(commands, ArbitrationCommand::Supersede) {
            return ArbitrationDecision::Superseded;
        }
        if has_command(commands, ArbitrationCommand::ReloadReplacement) {
            return ArbitrationDecision::ReloadReplacement;
        }
        if has_observation(observations, ChildObservation::ServiceExit) {
            return ArbitrationDecision::ServiceExited;
        }
        if has_observation(observations, ChildObservation::ReadinessTimeout) {
            return ArbitrationDecision::ReadinessTimedOut;
        }
        if has_observation(observations, ChildObservation::ReadinessExit { success: true }) {
            return ArbitrationDecision::ReadinessPassed;
        }
        if has_observation(observations, ChildObservation::ReadinessExit { success: false }) {
            return ArbitrationDecision::RetryReadiness;
        }
        ArbitrationDecision::Noop
    }
}

impl Default for ReadinessArbiter {
    fn default() -> (r: Self) {
        Self::new()
    }
}

/// The decision depends only on which commands and observations arrived,
/// not on their order or repetition.
pub proof fn law_arbitration_ignores_arrival_order(
    c1: Seq<ArbitrationCommand>,
    c2: Seq<ArbitrationCommand>,
    o1: Seq<ChildObservation>,
    o2: Seq<ChildObservation>,
)
    requires
        c1.to_set() == c2.to_set(),
        o1.to_set() == o2.to_set(),
    ensures
        resolve_spec(c1, o1) == resolve_spec(c2, o2),
{
    assert forall|c: ArbitrationCommand| c1.contains(c) == c2.contains(c) by {
        assert(c1.to_set().contains(c) == c1.contains(c));
        assert(c2.to_set().contains(c) == c2.contains(c));
    }
    assert forall|o: ChildObservation| o1.contains(o) == o2.contains(o) by {
        assert(o1.to_set().contains(o) == o1.contains(o));
        assert(o2.to_set().contains(o) == o2.contains(o));
    }
}

/// Any command outranks every child observation of the same cycle.
pub proof fn law_commands_outrank_observations(
    commands: Seq<ArbitrationCommand>,
    o1: Seq<ChildObservation>,
    o2: Seq<ChildObservation>,
)
    requires
        commands.len() > 0,
    ensures
        resolve_spec(commands, o1) == resolve_spec(commands, o2),
{
    let c = commands[0];
    assert(commands.contains(c));
}

} // verus!
