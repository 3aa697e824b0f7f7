//! The watch loop's decisions: what to do once the watches are registered,
//! and the content-change gate that keeps re-delivered events of untouched
//! files from scheduling work. The loop itself, which waits on the
//! filesystem and runs the strategy, is driven by the caller.
use vstd::prelude::*;

use crate::identity::{Batch, BatchId};
use crate::plan::RunPlan;
use crate::shortcut::{accepts, KeyDecode, TriggerLatch};
use crate::text::{chars_eq, owned, strictly_sorted, to_chars, views};

verus! {

/// What the watch loop does once filesystem watches are registered.
pub enum InitAction {
    /// The plan selected for init runs now.
    Run(RunPlan),
    /// Nothing to run on init; wait for file changes.
    Wait,
}

/// Runs on init when init rules exist and the `run_on_init` flag is on;
/// otherwise waits for changes.
pub fn init_action(plan: Option<RunPlan>, run_on_init: bool) -> (r: InitAction)
    ensures
        (plan is Some && run_on_init) ==> (r matches InitAction::Run(p) && Some(p) == plan),
        !(plan is Some && run_on_init) ==> r is Wait,
{
    match plan {
        Some(plan) if run_on_init => InitAction::Run(plan),
        _ => InitAction::Wait,
    }
}

/// A file's modified time, in nanoseconds from the Unix epoch (negative
/// before it); `None` when the path does not exist.
pub type Mtime = Option<i128>;

/// The index of the first entry for `p` at or after `i`, or the length.
pub open spec fn first_index(s: Seq<(Seq<char>, Mtime)>, p: Seq<char>, i: int) -> int
    decreases s.len() - i,
{
    if i < 0 || i >= s.len() {
        s.len() as int
    } else if s[i].0 == p {
        i
    } else {
        first_index(s, p, i + 1)
    }
}

proof fn lemma_first_index(s: Seq<(Seq<char>, Mtime)>, p: Seq<char>, i: int)
    requires
        0 <= i,
    ensures
        i <= first_index(s, p, i) <= s.len() || first_index(s, p, i) == s.len(),
        first_index(s, p, i) < s.len() ==> s[first_index(s, p, i)].0 == p,
    decreases s.len() - i,
{
    if i < s.len() && s[i].0 != p {
        lemma_first_index(s, p, i + 1);
    }
}

/// What the filter last saw of `p`: `None` before its first sighting.
pub open spec fn seen(s: Seq<(Seq<char>, Mtime)>, p: Seq<char>) -> Option<Mtime> {
    let k = first_index(s, p, 0);
    if k < s.len() {
        Some(s[k].1)
    } else {
        None
    }
}

/// The filter's entries after recording `m` for `p`.
pub open spec fn record(s: Seq<(Seq<char>, Mtime)>, p: Seq<char>, m: Mtime) -> Seq<(Seq<char>, Mtime)> {
    let k = first_index(s, p, 0);
    if k < s.len() {
        s.update(k, (p, m))
    } else {
        s.push((p, m))
    }
}

/// The filter's entries after a baseline for `p`: entries are fill-only.
pub open spec fn fill(s: Seq<(Seq<char>, Mtime)>, p: Seq<char>, m: Mtime) -> Seq<(Seq<char>, Mtime)> {
    if seen(s, p) is Some {
        s
    } else {
        s.push((p, m))
    }
}

/// Whether an observation routes: the path exists and its modified time
/// differs from what was last seen (a first sighting, a real write, or a
/// re-creation after a deletion).
pub open spec fn routes(previous: Option<Mtime>, current: Mtime) -> bool {
    current is Some && previous != Some(current)
}

/// The filter's entries and the routed paths after observing `obs` in order.
pub open spec fn gate_run(s: Seq<(Seq<char>, Mtime)>, obs: Seq<(Seq<char>, Mtime)>) -> (
    Seq<(Seq<char>, Mtime)>,
    Seq<Seq<char>>,
)
    decreases obs.len(),
{
    if obs.len() == 0 {
        (s, Seq::empty())
    } else {
        let (s1, routed) = gate_run(s, obs.drop_last());
        let (p, m) = obs.last();
        (record(s1, p, m), if routes(seen(s1, p), m) { routed.push(p) } else { routed })
    }
}

/// The filter's entries after baselining `base` in order.
pub open spec fn seed_run(s: Seq<(Seq<char>, Mtime)>, base: Seq<(Seq<char>, Mtime)>) -> Seq<(Seq<char>, Mtime)>
    decreases base.len(),
{
    if base.len() == 0 {
        s
    } else {
        let s1 = seed_run(s, base.drop_last());
        fill(s1, base.last().0, base.last().1)
    }
}

pub open spec fn entries_view(v: Seq<(String, Mtime)>) -> Seq<(Seq<char>, Mtime)> {
    v.map_values(|e: (String, Mtime)| (e.0@, e.1))
}

/// Content-change gate: a path routes only when its modified time changed
/// since it last routed. Backends can re-deliver a path in later debounce
/// windows although nothing wrote it; such chatter never schedules work.
pub struct ModificationGate {
    last_seen: Vec<(String, Mtime)>,
}

impl View for ModificationGate {
    type V = Seq<(Seq<char>, Mtime)>;

    closed spec fn view(&self) -> Seq<(Seq<char>, Mtime)> {
        entries_view(self.last_seen@)
    }
}

impl ModificationGate {
    pub fn new() -> (r: Self)
        ensures
            r@.len() == 0,
    {
        ModificationGate { last_seen: Vec::new() }
    }

    fn find(&self, path: &String) -> (r: usize)
        ensures
            r == first_index(self@, path@, 0),
            r <= self@.len(),
    {
        proof {
            lemma_first_index(self@, path@, 0);
        }
        let pc = to_chars(path.as_str());
        let mut i: usize = 0;
        while i < self.last_seen.len()
            invariant
                i <= self@.len(),
                pc@ == path@,
                first_index(self@, path@, 0) == first_index(self@, path@, i as int),
            decreases self@.len() - i,
        {
            if chars_eq(&to_chars(self.last_seen[i].0.as_str()), &pc) {
                assert(self@[i as int].0 == path@);
                return i;
            }
            assert(self@[i as int].0 != path@);
            i = i + 1;
        }
        i
    }

    /// Baselines the existing files at the configured paths, each with its
    /// modified time: a pre-existing file never routes as a first sighting.
    /// Entries are fill-only, so an already tracked write is never masked.
    pub fn seed(&mut self, baseline: Vec<(String, Mtime)>)
        ensures
            final(self)@ == seed_run(old(self)@, entries_view(baseline@)),
    {
        let ghost base = entries_view(baseline@);
        let mut i: usize = 0;
        while i < baseline.len()
            invariant
                i <= baseline@.len(),
                base == entries_view(baseline@),
                self@ == seed_run(old(self)@, base.take(i as int)),
            decreases baseline@.len() - i,
        {
            proof {
                assert(base.take(i + 1).drop_last() =~= base.take(i as int));
            }
            let k = self.find(&baseline[i].0);
            proof {
                assert(base.take(i + 1).last() == base[i as int]);
                assert(base[i as int] == (baseline@[i as int].0@, baseline@[i as int].1));
            }
            if k == self.last_seen.len() {
                self.last_seen.push((baseline[i].0.clone(), baseline[i].1));
                assert(self@ =~= seed_run(old(self)@, base.take(i + 1)));
            } else {
                assert(seen(self@, base[i as int].0) is Some);
            }
            i = i + 1;
        }
        assert(base.take(base.len() as int) =~= base);
    }

    /// Returns the paths that exist and whose modified time differs from
    /// the last observation, in input order, and records every
    /// observation. Deletions never route, but update the record so a later
    /// re-creation routes exactly once.
    pub fn changed(&mut self, observed: Vec<(String, Mtime)>) -> (r: Vec<String>)
        ensures
            final(self)@ == gate_run(old(self)@, entries_view(observed@)).0,
            crate::text::views(r@) == gate_run(old(self)@, entries_view(observed@)).1,
    {
        let ghost obs = entries_view(observed@);
        let mut routed: Vec<String> = Vec::new();
        let mut i: usize = 0;
        while i < observed.len()
            invariant
                i <= observed@.len(),
                obs == entries_view(observed@),
                self@ == gate_run(old(self)@, obs.take(i as int)).0,
                crate::text::views(routed@) == gate_run(old(self)@, obs.take(i as int)).1,
            decreases observed@.len() - i,
        {
            proof {
                assert(obs.take(i + 1).drop_last() =~= obs.take(i as int));
            }
            let path = &observed[i].0;
            let current = observed[i].1;
            let k = self.find(path);
            let route = if k < self.last_seen.len() {
                current.is_some() && self.last_seen[k].1 != current
            } else {
                current.is_some()
            };
            if route {
                routed.push(path.clone());
                assert(crate::text::views(routed@) =~= gate_run(old(self)@, obs.take(i + 1)).1);
            }
            if k < self.last_seen.len() {
                self.last_seen.set(k, (path.clone(), current));
            } else {
                self.last_seen.push((path.clone(), current));
            }
            assert(self@ =~= gate_run(old(self)@, obs.take(i + 1)).0);
            i = i + 1;
        }
        assert(obs.take(obs.len() as int) =~= obs);
        routed
    }
}

proof fn lemma_first_index_push(s: Seq<(Seq<char>, Mtime)>, p: Seq<char>, e: (Seq<char>, Mtime), i: int)
    requires
        0 <= i <= s.len(),
        first_index(s, p, i) == s.len(),
        e.0 == p,
    ensures
        first_index(s.push(e), p, i) == s.len(),
    decreases s.len() - i,
{
    if i < s.len() {
        lemma_first_index_push(s, p, e, i + 1);
    }
}

proof fn lemma_first_index_update(s: Seq<(Seq<char>, Mtime)>, p: Seq<char>, k: int, e: (Seq<char>, Mtime), i: int)
    requires
        0 <= i <= k < s.len(),
        first_index(s, p, i) == k,
        e.0 == p,
    ensures
        first_index(s.update(k, e), p, i) == k,
    decreases s.len() - i,
{
    if i < k {
        lemma_first_index_update(s, p, k, e, i + 1);
    }
}

/// After recording an observation, the filter has seen exactly it.
proof fn lemma_seen_after_record(s: Seq<(Seq<char>, Mtime)>, p: Seq<char>, m: Mtime)
    ensures
        seen(record(s, p, m), p) == Some(m),
{
    lemma_first_index(s, p, 0);
    let k = first_index(s, p, 0);
    if k < s.len() {
        lemma_first_index_update(s, p, k, (p, m), 0);
    } else {
        lemma_first_index_push(s, p, (p, m), 0);
    }
}

/// Routing follows real modification: a re-delivered observation of an
/// untouched path never routes again, a deletion never routes, and a real
/// write or a re-creation after a deletion routes.
pub proof fn law_gate_routes_only_real_changes(
    s: Seq<(Seq<char>, Mtime)>,
    p: Seq<char>,
    m: Mtime,
    next: Mtime,
)
    ensures
        !routes(seen(record(s, p, m), p), m),
        !routes(seen(s, p), None),
        next is Some && next != m ==> routes(seen(record(s, p, m), p), next),
        gate_run(s, seq![(p, m), (p, m)]).1 == (if routes(seen(s, p), m) {
            seq![p]
        } else {
            Seq::<Seq<char>>::empty()
        }),
{
    lemma_seen_after_record(s, p, m);
    let two = seq![(p, m), (p, m)];
    let one = seq![(p, m)];
    let none = Seq::<(Seq<char>, Mtime)>::empty();
    assert(two.drop_last() =~= one);
    assert(one.drop_last() =~= none);
    assert(Seq::<Seq<char>>::empty().push(p) =~= seq![p]);
    assert(gate_run(s, none) == (s, Seq::<Seq<char>>::empty()));
    assert(gate_run(s, one) == (record(s, p, m), if routes(seen(s, p), m) {
        Seq::<Seq<char>>::empty().push(p)
    } else {
        Seq::<Seq<char>>::empty()
    }));
    assert(gate_run(s, two).1 == gate_run(s, one).1);
}

/// A baselined file is seen with its baseline time, so an unchanged
/// pre-existing file never routes as a first sighting; a path already
/// tracked keeps what the filter saw.
pub proof fn law_seed_is_fill_only(s: Seq<(Seq<char>, Mtime)>, p: Seq<char>, m: Mtime)
    ensures
        seen(s, p) is None ==> !routes(seen(fill(s, p, m), p), m),
        seen(s, p) is Some ==> fill(s, p, m) == s,
{
    if seen(s, p) is None {
        lemma_first_index(s, p, 0);
        lemma_first_index_push(s, p, (p, m), 0);
    }
}

/// The batch that is routed after the content-change gate: the paths of
/// the observed batch that actually changed, normalized again; `None` when
/// nothing changed, so nothing is scheduled. Every observation is recorded
/// either way.
pub fn gated_batch(gate: &mut ModificationGate, id: BatchId, observed: Vec<(String, Mtime)>) -> (r: Option<Batch>)
    ensures
        final(gate)@ == gate_run(old(gate)@, entries_view(observed@)).0,
        r is None <==> gate_run(old(gate)@, entries_view(observed@)).1.len() == 0,
        r matches Some(b) ==> b.id == id && strictly_sorted(views(b.changed@)) && views(
            b.changed@,
        ).to_set() == gate_run(old(gate)@, entries_view(observed@)).1.to_set(),
{
    let changed = gate.changed(observed);
    if changed.len() == 0 {
        return None;
    }
    Some(Batch::normalized(id, changed))
}

/// Where the keyboard-shortcut run stands.
#[derive(Clone, Copy, Debug, PartialEq, Eq, Structural)]
pub enum ManualTriggerPhase {
    Idle,
    /// A shortcut was latched while a run was going; it runs once that one
    /// finishes.
    Waiting,
    /// The shortcut's run is this generation.
    Active(u64),
}

/// What the caller observed for the shortcut reader.
#[derive(Clone, Copy, Debug, PartialEq, Eq)]
pub enum ShortcutEvent {
    /// A decoded key; `running` tells whether a run is going.
    Key { key: KeyDecode, running: bool },
    /// No key this round; `running` tells whether a run is going and
    /// `active_complete` whether the shortcut's own run has completed.
    Tick { running: bool, active_complete: bool },
}

/// What the caller does next.
#[derive(Clone, Debug, PartialEq, Eq)]
pub enum ShortcutAction {
    Nothing,
    /// Show this line to the user.
    Inform(String),
    /// Plan and start the full pipeline, then report how it went.
    RunManual,
}

/// How starting the shortcut's run went.
#[derive(Clone, Copy, Debug, PartialEq, Eq)]
pub enum ManualOutcome {
    /// No configured job to run.
    NoPlan,
    /// Scheduled as this generation, or run to completion (`None`).
    Started(Option<u64>),
}

/// The shortcut state: the latch and the phase of the shortcut's run.
#[derive(Clone, Copy, Debug, PartialEq, Eq)]
pub struct ManualTrigger {
    pub latch: TriggerLatch,
    pub phase: ManualTriggerPhase,
}

pub enum ShortcutActionView {
    Nothing,
    Inform(Seq<char>),
    RunManual,
}

pub open spec fn shortcut_action_view(a: ShortcutAction) -> ShortcutActionView {
    match a {
        ShortcutAction::Nothing => ShortcutActionView::Nothing,
        ShortcutAction::Inform(m) => ShortcutActionView::Inform(m@),
        ShortcutAction::RunManual => ShortcutActionView::RunManual,
    }
}

/// One step of the shortcut state on an event: (latched, phase) after it,
/// and the action.
pub open spec fn shortcut_step_spec(latched: bool, phase: ManualTriggerPhase, e: ShortcutEvent) -> (
    bool,
    ManualTriggerPhase,
    ShortcutActionView,
) {
    match e {
        ShortcutEvent::Tick { running, active_complete } => {
            let (l1, p1) = if phase is Active && active_complete {
                (false, ManualTriggerPhase::Idle)
            } else {
                (latched, phase)
            };
            if p1 == ManualTriggerPhase::Waiting && !running {
                (l1, p1, ShortcutActionView::RunManual)
            } else {
                (l1, p1, ShortcutActionView::Nothing)
            }
        },
        ShortcutEvent::Key { key, running } => if key == KeyDecode::Eof {
            (latched, phase, ShortcutActionView::Nothing)
        } else if !accepts(latched, key) {
            (
                latched,
                phase,
                if key == KeyDecode::Trigger {
                    ShortcutActionView::Inform(
                        "Shortcut already latched; waiting for the current run to finish."@,
                    )
                } else {
                    ShortcutActionView::Nothing
                },
            )
        } else if running {
            (
                true,
                ManualTriggerPhase::Waiting,
                ShortcutActionView::Inform("Shortcut latched; waiting for the current run to finish."@),
            )
        } else {
            (true, phase, ShortcutActionView::RunManual)
        },
    }
}

/// The shortcut state after starting its run: the run's generation becomes
/// active; with no plan, or a run that already completed, the latch is
/// released and the phase is idle again.
pub open spec fn manual_outcome_spec(latched: bool, o: ManualOutcome) -> (bool, ManualTriggerPhase) {
    match o {
        ManualOutcome::Started(Some(g)) => (latched, ManualTriggerPhase::Active(g)),
        _ => (false, ManualTriggerPhase::Idle),
    }
}

impl ManualTrigger {
    pub fn new() -> (r: Self)
        ensures
            !r.latch@,
            r.phase == ManualTriggerPhase::Idle,
    {
        ManualTrigger { latch: TriggerLatch::new(), phase: ManualTriggerPhase::Idle }
    }

    /// Advances the shortcut state on an observed event.
    pub fn step(&mut self, e: ShortcutEvent) -> (r: ShortcutAction)
        ensures
            (final(self).latch@, final(self).phase, shortcut_action_view(r)) == shortcut_step_spec(
                old(self).latch@,
                old(self).phase,
                e,
            ),
    {
        match e {
            ShortcutEvent::Tick { running, active_complete } => {
                if let ManualTriggerPhase::Active(_) = self.phase {
                    if active_complete {
                        self.phase = ManualTriggerPhase::Idle;
                        self.latch.reset();
                    }
                }
                if self.phase == ManualTriggerPhase::Waiting && !running {
                    ShortcutAction::RunManual
                } else {
                    ShortcutAction::Nothing
                }
            },
            ShortcutEvent::Key { key, running } => {
                if key == KeyDecode::Eof {
                    return ShortcutAction::Nothing;
                }
                if !self.latch.accept(key) {
                    if key == KeyDecode::Trigger {
                        return ShortcutAction::Inform(
                            owned("Shortcut already latched; waiting for the current run to finish."),
                        );
                    }
                    return ShortcutAction::Nothing;
                }
                if running {
                    self.phase = ManualTriggerPhase::Waiting;
                    ShortcutAction::Inform(
                        owned("Shortcut latched; waiting for the current run to finish."),
                    )
                } else {
                    ShortcutAction::RunManual
                }
            },
        }
    }

    /// Records how starting the shortcut's run went; returns the warning to
    /// show when there was nothing to run.
    pub fn manual_outcome(&mut self, o: ManualOutcome) -> (r: Option<String>)
        ensures
            (final(self).latch@, final(self).phase) == manual_outcome_spec(old(self).latch@, o),
            (r is Some) == (o == ManualOutcome::NoPlan),
            r matches Some(m) ==> m@ == "Shortcut ignored: no configured jobs to run."@,
    {
        match o {
            ManualOutcome::Started(Some(g)) => {
                self.phase = ManualTriggerPhase::Active(g);
                None
            },
            ManualOutcome::Started(None) => {
                self.latch.reset();
                self.phase = ManualTriggerPhase::Idle;
                None
            },
            ManualOutcome::NoPlan => {
                self.latch.reset();
                self.phase = ManualTriggerPhase::Idle;
                Some(owned("Shortcut ignored: no configured jobs to run."))
            },
        }
    }
}

/// At most one shortcut run is pending or going at a time: while the latch
/// holds a request, further shortcut keys neither start a run nor change
/// the phase; and a run starts only from an accepted key or from a waiting
/// request once the previous run is over.
pub proof fn law_one_shortcut_run_at_a_time(phase: ManualTriggerPhase, e: ShortcutEvent)
    ensures
        e is Key ==> (shortcut_step_spec(true, phase, e).1 == phase && !(shortcut_step_spec(
            true,
            phase,
            e,
        ).2 is RunManual)),
        shortcut_step_spec(false, phase, e).2 is RunManual ==> (e matches ShortcutEvent::Key {
            key,
            running,
        } && key == KeyDecode::Trigger && !running) || phase == ManualTriggerPhase::Waiting,
        e matches ShortcutEvent::Tick { running, .. } ==> (shortcut_step_spec(true, phase, e).2
            is RunManual <==> (phase == ManualTriggerPhase::Waiting && !running)),
{
}

} // verus!
