//! User-facing watcher execution state: executor events projected into one
//! coherent view of the latest generation, shared by awaiting, snapshots and
//! the control transport.
use vstd::prelude::*;

use crate::executor::Event;
use crate::rules::opt_view;
use crate::task_result::TaskSnapshot;
use crate::text::views;

verus! {

#[derive(Clone, Copy, Debug, PartialEq, Eq, Structural)]
pub enum WatcherExecutionState {
    Idle,
    Running,
    Passed,
    Failed,
    Cancelled,
}

/// One process identity: the token changes on restart so clients can
/// detect a new instance instead of assuming continuity.
#[derive(Clone, Debug, PartialEq, Eq)]
pub struct WatcherInstance {
    pub token: String,
    pub started_at_epoch_ms: u64,
}

/// The latest generation as seen by clients. All correlation fields belong
/// to the same generation and are replaced together.
#[derive(Clone, Debug)]
pub struct WatcherState {
    generation: u64,
    state: WatcherExecutionState,
    trigger: Option<String>,
    commands: Vec<String>,
    duration_ms: Option<u64>,
    failures: Vec<String>,
    batch: Option<u64>,
    changed: Vec<String>,
    predecessor: Option<u64>,
    superseded_by: Option<u64>,
    /// Per-task terminal outcomes, ordered by declaration position.
    tasks: Vec<TaskSnapshot>,
    effective_concurrency: Option<usize>,
    concurrency_source: Option<&'static str>,
    /// Immutable configuration revision this generation was frozen under.
    revision: Option<u64>,
    revision_hash: Option<String>,
}

/// The mathematical value of a `WatcherState`.
pub struct WatcherStateView {
    pub generation: u64,
    pub state: WatcherExecutionState,
    pub trigger: Option<Seq<char>>,
    pub commands: Seq<Seq<char>>,
    pub duration_ms: Option<u64>,
    pub failures: Seq<Seq<char>>,
    pub batch: Option<u64>,
    pub changed: Seq<Seq<char>>,
    pub predecessor: Option<u64>,
    pub superseded_by: Option<u64>,
    pub tasks: Seq<TaskSnapshot>,
    pub effective_concurrency: Option<usize>,
    pub concurrency_source: Option<Seq<char>>,
    pub revision: Option<u64>,
    pub revision_hash: Option<Seq<char>>,
}

pub open spec fn str_opt_view(o: Option<&'static str>) -> Option<Seq<char>> {
    match o {
        Some(s) => Some(s@),
        None => None,
    }
}

impl View for WatcherState {
    type V = WatcherStateView;

    closed spec fn view(&self) -> WatcherStateView {
        WatcherStateView {
            generation: self.generation,
            state: self.state,
            trigger: opt_view(self.trigger),
            commands: views(self.commands@),
            duration_ms: self.duration_ms,
            failures: views(self.failures@),
            batch: self.batch,
            changed: views(self.changed@),
            predecessor: self.predecessor,
            superseded_by: self.superseded_by,
            tasks: self.tasks@,
            effective_concurrency: self.effective_concurrency,
            concurrency_source: str_opt_view(self.concurrency_source),
            revision: self.revision,
            revision_hash: opt_view(self.revision_hash),
        }
    }
}

/// Task snapshots are ordered by declaration position.
pub open spec fn sorted_by_position(s: Seq<TaskSnapshot>) -> bool {
    forall|i: int, j: int| 0 <= i <= j < s.len() ==> #[trigger] s[i].position <= #[trigger] s[j].position
}

/// The index of the first snapshot whose position is above `p`, or the
/// length when there is none.
pub open spec fn first_after(s: Seq<TaskSnapshot>, p: usize) -> nat
    decreases s.len(),
{
    if s.len() == 0 {
        0
    } else if s[0].position > p {
        0
    } else {
        1 + first_after(s.drop_first(), p)
    }
}

/// Adds a snapshot after every snapshot at or before its position: what a
/// stable sort by position makes of the ordered list with the snapshot
/// appended.
pub open spec fn insert_by_position(s: Seq<TaskSnapshot>, t: TaskSnapshot) -> Seq<TaskSnapshot> {
    s.insert(first_after(s, t.position) as int, t)
}

/// The state before any event.
pub open spec fn idle_view() -> WatcherStateView {
    WatcherStateView {
        generation: 0,
        state: WatcherExecutionState::Idle,
        trigger: None,
        commands: Seq::empty(),
        duration_ms: None,
        failures: Seq::empty(),
        batch: None,
        changed: Seq::empty(),
        predecessor: None,
        superseded_by: None,
        tasks: Seq::empty(),
        effective_concurrency: None,
        concurrency_source: None,
        revision: None,
        revision_hash: None,
    }
}

/// The state after one event.
pub open spec fn apply_spec(v: WatcherStateView, event: Event) -> WatcherStateView {
    match event {
        Event::Started {
            run_id,
            trigger,
            batch,
            predecessor,
            changed,
            commands,
            effective_concurrency,
            concurrency_source,
            revision,
            revision_hash,
            ..
        } => WatcherStateView {
            generation: run_id,
            state: WatcherExecutionState::Running,
            trigger: Some(trigger@),
            commands: views(commands@),
            duration_ms: None,
            failures: Seq::empty(),
            batch,
            changed: views(changed@),
            predecessor,
            superseded_by: None,
            tasks: Seq::empty(),
            effective_concurrency,
            concurrency_source: str_opt_view(concurrency_source),
            revision,
            revision_hash: opt_view(revision_hash),
        },
        Event::Finished { superseded_by, elapsed_ms, failures, .. } => WatcherStateView {
            state: if failures@.len() == 0 {
                WatcherExecutionState::Passed
            } else {
                WatcherExecutionState::Failed
            },
            duration_ms: Some(elapsed_ms),
            failures: views(failures@),
            superseded_by,
            ..v
        },
        Event::Cancelled { superseded_by, .. } => WatcherStateView {
            state: WatcherExecutionState::Cancelled,
            duration_ms: None,
            superseded_by,
            ..v
        },
        Event::TaskTerminal { run_id, task } => if run_id == v.generation {
            WatcherStateView { tasks: insert_by_position(v.tasks, task), ..v }
        } else {
            v
        },
        _ => v,
    }
}

proof fn lemma_first_after(s: Seq<TaskSnapshot>, p: usize)
    ensures
        first_after(s, p) <= s.len(),
        forall|j: int| 0 <= j < first_after(s, p) ==> #[trigger] s[j].position <= p,
        first_after(s, p) < s.len() ==> s[first_after(s, p) as int].position > p,
    decreases s.len(),
{
    if s.len() > 0 && s[0].position <= p {
        lemma_first_after(s.drop_first(), p);
        assert forall|j: int| 0 <= j < first_after(s, p) implies #[trigger] s[j].position <= p by {
            if j > 0 {
                assert(s[j] == s.drop_first()[j - 1]);
            }
        }
    }
}

proof fn lemma_first_after_unique(s: Seq<TaskSnapshot>, p: usize, k: int)
    requires
        0 <= k <= s.len(),
        forall|j: int| 0 <= j < k ==> #[trigger] s[j].position <= p,
        k < s.len() ==> s[k].position > p,
    ensures
        first_after(s, p) == k,
    decreases s.len(),
{
    if s.len() > 0 && k > 0 {
        assert(s[0].position <= p);
        assert forall|j: int| 0 <= j < k - 1 implies #[trigger] s.drop_first()[j].position <= p by {
            assert(s.drop_first()[j] == s[j + 1]);
        }
        if k < s.len() {
            assert(s.drop_first()[k - 1] == s[k]);
        }
        lemma_first_after_unique(s.drop_first(), p, k - 1);
    }
}

/// Inserting by position keeps the snapshots ordered and adds exactly the
/// new snapshot.
pub proof fn lemma_insert_by_position(s: Seq<TaskSnapshot>, t: TaskSnapshot)
    requires
        sorted_by_position(s),
    ensures
        sorted_by_position(insert_by_position(s, t)),
        insert_by_position(s, t).to_multiset() == s.to_multiset().insert(t),
{
    lemma_first_after(s, t.position);
    let k = first_after(s, t.position) as int;
    let r = insert_by_position(s, t);
    assert forall|i: int, j: int| 0 <= i <= j < r.len() implies #[trigger] r[i].position
        <= #[trigger] r[j].position by {
        if i < k && j < k {
        } else if i < k && j == k {
        } else if i < k && j > k {
            assert(r[j] == s[j - 1]);
            assert(s[j - 1].position >= s[k].position);
        } else if i == k && j > k {
            assert(r[j] == s[j - 1]);
            assert(s[j - 1].position >= s[k].position);
        } else if i > k {
            assert(r[i] == s[i - 1]);
            assert(r[j] == s[j - 1]);
        }
    }
    vstd::seq_lib::to_multiset_insert(s, k, t);
}

/// Only a start changes the generation: every other event keeps the
/// generation and all of its correlation fields, so one read never mixes
/// two generations.
pub proof fn law_only_start_changes_generation(v: WatcherStateView, event: Event)
    requires
        !(event is Started),
    ensures
        apply_spec(v, event).generation == v.generation,
        apply_spec(v, event).trigger == v.trigger,
        apply_spec(v, event).batch == v.batch,
        apply_spec(v, event).changed == v.changed,
        apply_spec(v, event).predecessor == v.predecessor,
        apply_spec(v, event).commands == v.commands,
        apply_spec(v, event).revision == v.revision,
        apply_spec(v, event).revision_hash == v.revision_hash,
{
}

/// A task outcome reported for another generation leaves the state as it
/// was; one for the current generation adds exactly that outcome.
pub proof fn law_task_outcomes_belong_to_current_generation(
    v: WatcherStateView,
    run_id: u64,
    task: TaskSnapshot,
)
    requires
        sorted_by_position(v.tasks),
    ensures
        run_id != v.generation ==> apply_spec(v, Event::TaskTerminal { run_id, task }) == v,
        run_id == v.generation ==> apply_spec(v, Event::TaskTerminal { run_id, task }).tasks.to_multiset()
            == v.tasks.to_multiset().insert(task),
        sorted_by_position(apply_spec(v, Event::TaskTerminal { run_id, task }).tasks),
{
    lemma_insert_by_position(v.tasks, task);
}

impl WatcherState {
    /// The state is well formed: its task snapshots are ordered by
    /// declaration position.
    pub open spec fn wf(&self) -> bool {
        sorted_by_position(self@.tasks)
    }

    /// The idle state before the first generation.
    pub fn new() -> (r: Self)
        ensures
            r.wf(),
            r@ == idle_view(),
    {
        let r = WatcherState {
            generation: 0,
            state: WatcherExecutionState::Idle,
            trigger: None,
            commands: Vec::new(),
            duration_ms: None,
            failures: Vec::new(),
            batch: None,
            changed: Vec::new(),
            predecessor: None,
            superseded_by: None,
            tasks: Vec::new(),
            effective_concurrency: None,
            concurrency_source: None,
            revision: None,
            revision_hash: None,
        };
        assert(views(r.commands@) =~= Seq::<Seq<char>>::empty());
        assert(views(r.failures@) =~= Seq::<Seq<char>>::empty());
        assert(views(r.changed@) =~= Seq::<Seq<char>>::empty());
        r
    }

    pub fn is_running(&self) -> (r: bool)
        ensures
            r == (self@.state == WatcherExecutionState::Running),
    {
        self.state == WatcherExecutionState::Running
    }

    pub fn generation(&self) -> (r: u64)
        ensures
            r == self@.generation,
    {
        self.generation
    }

    pub fn state(&self) -> (r: &WatcherExecutionState)
        ensures
            *r == self@.state,
    {
        &self.state
    }

    pub fn predecessor(&self) -> (r: Option<u64>)
        ensures
            r == self@.predecessor,
    {
        self.predecessor
    }

    pub fn superseded_by(&self) -> (r: Option<u64>)
        ensures
            r == self@.superseded_by,
    {
        self.superseded_by
    }

    pub fn tasks(&self) -> (r: &[TaskSnapshot])
        ensures
            r@ == self@.tasks,
            self.wf() ==> sorted_by_position(r@),
    {
        self.tasks.as_slice()
    }

    pub fn trigger(&self) -> (r: Option<&str>)
        ensures
            r matches Some(t) ==> self@.trigger == Some(t@),
            r is None ==> self@.trigger is None,
    {
        match &self.trigger {
            Some(t) => Some(t.as_str()),
            None => None,
        }
    }

    pub fn commands(&self) -> (r: &[String])
        ensures
            views(r@) == self@.commands,
    {
        self.commands.as_slice()
    }

    pub fn duration_ms(&self) -> (r: Option<u64>)
        ensures
            r == self@.duration_ms,
    {
        self.duration_ms
    }

    pub fn failures(&self) -> (r: &[String])
        ensures
            views(r@) == self@.failures,
    {
        self.failures.as_slice()
    }

    pub fn revision(&self) -> (r: Option<u64>)
        ensures
            r == self@.revision,
    {
        self.revision
    }

    pub fn revision_hash(&self) -> (r: Option<&str>)
        ensures
            r matches Some(h) ==> self@.revision_hash == Some(h@),
            r is None ==> self@.revision_hash is None,
    {
        match &self.revision_hash {
            Some(h) => Some(h.as_str()),
            None => None,
        }
    }

    pub fn batch(&self) -> (r: Option<u64>)
        ensures
            r == self@.batch,
    {
        self.batch
    }

    pub fn changed(&self) -> (r: &[String])
        ensures
            views(r@) == self@.changed,
    {
        self.changed.as_slice()
    }

    pub fn effective_concurrency(&self) -> (r: Option<usize>)
        ensures
            r == self@.effective_concurrency,
    {
        self.effective_concurrency
    }

    pub fn concurrency_source(&self) -> (r: Option<&'static str>)
        ensures
            str_opt_view(r) == self@.concurrency_source,
    {
        self.concurrency_source
    }

    fn insert_task(&mut self, task: TaskSnapshot)
        requires
            old(self).wf(),
        ensures
            final(self).wf(),
            final(self)@ == (WatcherStateView {
                tasks: insert_by_position(old(self)@.tasks, task),
                ..old(self)@
            }),
    {
        let ghost s = self.tasks@;
        let mut k: usize = 0;
        while k < self.tasks.len() && self.tasks[k].position <= task.position
            invariant
                self.tasks@ == s,
                k <= s.len(),
                forall|j: int| 0 <= j < k ==> #[trigger] s[j].position <= task.position,
            decreases s.len() - k,
        {
            k = k + 1;
        }
        proof {
            lemma_first_after_unique(s, task.position, k as int);
            lemma_insert_by_position(s, task);
        }
        self.tasks.insert(k, task);
    }

    /// Projects one executor event. A start replaces every correlation
    /// field at once; terminal events keep the generation; task outcomes of
    /// another generation are ignored.
    pub fn apply(&mut self, event: Event)
        requires
            old(self).wf(),
        ensures
            final(self).wf(),
            final(self)@ == apply_spec(old(self)@, event),
    {
        match event {
            Event::Started {
                run_id,
                trigger,
                batch,
                predecessor,
                changed,
                commands,
                effective_concurrency,
                concurrency_source,
                revision,
                revision_hash,
                ..
            } => {
                self.generation = run_id;
                self.state = WatcherExecutionState::Running;
                self.trigger = Some(trigger);
                self.batch = batch;
                self.changed = changed;
                self.predecessor = predecessor;
                self.superseded_by = None;
                self.commands = commands;
                self.duration_ms = None;
                self.failures.clear();
                self.tasks.clear();
                self.effective_concurrency = effective_concurrency;
                self.concurrency_source = concurrency_source;
                self.revision = revision;
                self.revision_hash = revision_hash;
                assert(views(self.failures@) =~= Seq::<Seq<char>>::empty());
            },
            Event::Finished { superseded_by, elapsed_ms, failures, .. } => {
                self.state = if failures.len() == 0 {
                    WatcherExecutionState::Passed
                } else {
                    WatcherExecutionState::Failed
                };
                self.duration_ms = Some(elapsed_ms);
                self.failures = failures;
                self.superseded_by = superseded_by;
            },
            Event::Cancelled { superseded_by, .. } => {
                self.state = WatcherExecutionState::Cancelled;
                self.duration_ms = None;
                self.superseded_by = superseded_by;
            },
            Event::Tick { .. } => {},
            Event::TaskTerminal { run_id, task } => {
                if run_id == self.generation {
                    self.insert_task(task);
                }
            },
            Event::RecoveryPhase { .. } => {},
        }
    }
}

impl Default for WatcherState {
    fn default() -> (r: Self)
        ensures
            r.wf(),
            r@ == idle_view(),
    {
        WatcherState::new()
    }
}

} // verus!
