//! The decision core of running one task of a generation: which command to
//! spawn next, what a failed spawn, a child's exit, a wait error or an
//! elapsed deadline do to the task, when fail-fast stops the generation,
//! and how a managed service restarts within its bound. Spawning, polling,
//! signalling and sleeping are performed by the caller, which reports what
//! it observed as a [`TaskEvent`] and performs the returned [`TaskAction`].
use vstd::prelude::*;

use crate::executor::{ApprovalDecision, CancelDisposition, PendingSettledHook};
use crate::plan::{TaskOutcome, TaskOutcomeView};
use crate::task_result::{TaskSnapshot, TaskState};
use crate::text::{decimal, decimal_string, owned};

verus! {

/// Restart attempts a managed service gets after unexpected exits.
pub const SERVICE_MAX_RESTARTS: usize = 3;


/// The progress of one task.
#[derive(Clone, Debug, PartialEq, Eq)]
pub struct TaskRun {
    pub name: String,
    /// Commands still to spawn, in order (their display text).
    pub pending: Vec<String>,
    /// The command whose child is running.
    pub running: Option<String>,
    /// The task's failures so far.
    pub failures: Vec<String>,
    /// Command failures stay out of the run's results while recovery can
    /// change how the task ends.
    pub defer_failure: bool,
    pub recoverable: bool,
    pub service: bool,
    pub restarts_left: usize,
    pub timed_out: bool,
    /// Whether a command of the task was ever spawned.
    pub started: bool,
}

/// What the caller observed about the task.
#[derive(Clone, Debug, PartialEq, Eq)]
pub enum TaskEvent {
    /// The task's working directory is missing or not a directory.
    CwdMissing { cwd: String },
    /// The task's job-wide deadline elapsed; the caller terminated its
    /// process group. `elapsed_text` is the elapsed time as rendered for
    /// the failure, `elapsed_ms` in whole milliseconds.
    DeadlineReached { elapsed_ms: u64, elapsed_text: String },
    /// The next command was spawned.
    Spawned,
    /// The next command could not be spawned.
    SpawnFailed { error: String },
    /// The running child has not exited yet.
    StillRunning,
    /// The running child exited; `status` as rendered for a failure.
    Exited { success: bool, status: String },
    /// Waiting on the running child failed.
    WaitErrored { error: String },
}

/// What the caller does next.
#[derive(Clone, Debug, PartialEq, Eq)]
pub enum TaskAction {
    /// Spawn this command.
    Spawn(String),
    /// The child is running: emit a tick and poll again later.
    Poll,
    /// Warn with this text, wait the backoff, then spawn the pending
    /// command again.
    Restart { warning: String },
    /// The task is done.
    Finished,
    /// The task failed and fail-fast stops the generation.
    FailedFast,
    /// The task's deadline elapsed.
    TimedOut,
}

pub struct TaskRunView {
    pub name: Seq<char>,
    pub pending: Seq<Seq<char>>,
    pub running: Option<Seq<char>>,
    pub failures: Seq<Seq<char>>,
    pub defer_failure: bool,
    pub recoverable: bool,
    pub service: bool,
    pub restarts_left: nat,
    pub timed_out: bool,
    pub started: bool,
}

pub enum TaskActionView {
    Spawn(Seq<char>),
    Poll,
    Restart { warning: Seq<char> },
    Finished,
    FailedFast,
    TimedOut,
}

pub open spec fn opt_chars(o: Option<String>) -> Option<Seq<char>> {
    match o {
        Some(s) => Some(s@),
        None => None,
    }
}

impl View for TaskRun {
    type V = TaskRunView;

    open spec fn view(&self) -> TaskRunView {
        TaskRunView {
            name: self.name@,
            pending: crate::text::views(self.pending@),
            running: opt_chars(self.running),
            failures: crate::text::views(self.failures@),
            defer_failure: self.defer_failure,
            recoverable: self.recoverable,
            service: self.service,
            restarts_left: self.restarts_left as nat,
            timed_out: self.timed_out,
            started: self.started,
        }
    }
}

impl View for TaskAction {
    type V = TaskActionView;

    open spec fn view(&self) -> TaskActionView {
        match self {
            TaskAction::Spawn(c) => TaskActionView::Spawn(c@),
            TaskAction::Poll => TaskActionView::Poll,
            TaskAction::Restart { warning } => TaskActionView::Restart { warning: warning@ },
            TaskAction::Finished => TaskActionView::Finished,
            TaskAction::FailedFast => TaskActionView::FailedFast,
            TaskAction::TimedOut => TaskActionView::TimedOut,
        }
    }
}

pub open spec fn result_views(v: Seq<Result<(), String>>) -> Seq<Result<(), Seq<char>>> {
    v.map_values(
        |r: Result<(), String>|
            match r {
                Ok(()) => Ok(()),
                Err(m) => Err(m@),
            },
    )
}

/// What one step does: the task afterwards, the next action and the
/// command results it appends.
pub struct TaskStepView {
    pub task: TaskRunView,
    pub action: TaskActionView,
    pub results: Seq<Result<(), Seq<char>>>,
}

/// The next action when no child is running: spawn the next command, or
/// finish when none is left.
pub open spec fn next_action_spec(v: TaskRunView) -> TaskActionView {
    if v.pending.len() == 0 {
        TaskActionView::Finished
    } else {
        TaskActionView::Spawn(v.pending[0])
    }
}

pub open spec fn cwd_failure(name: Seq<char>, cwd: Seq<char>) -> Seq<char> {
    "Task '"@ + name + "' cwd is missing or not a directory: "@ + cwd
}

pub open spec fn timeout_failure(name: Seq<char>, elapsed: Seq<char>) -> Seq<char> {
    "job '"@ + name + "' timed out after "@ + elapsed + " and was terminated"@
}

pub open spec fn timeout_result(name: Seq<char>, ms: u64) -> Seq<char> {
    "Job '"@ + name + "' timed out after "@ + decimal(ms as nat) + "ms and was terminated"@
}

pub open spec fn start_failure(cmd: Seq<char>, error: Seq<char>) -> Seq<char> {
    "Command "@ + cmd + " failed to start: "@ + error
}

pub open spec fn exit_failure(cmd: Seq<char>, status: Seq<char>) -> Seq<char> {
    "Command "@ + cmd + " has failed with "@ + status
}

pub open spec fn wait_failure(cmd: Seq<char>, error: Seq<char>) -> Seq<char> {
    "Command "@ + cmd + " has errored with "@ + error
}

pub open spec fn respawn_failure(name: Seq<char>, error: Seq<char>) -> Seq<char> {
    "Service "@ + name + " respawn failed: "@ + error
}

pub open spec fn service_failure(name: Seq<char>) -> Seq<char> {
    "Service "@ + name + " has failed after 3 restarts"@
}

pub open spec fn restart_warning(name: Seq<char>, status: Seq<char>, left: nat) -> Seq<char> {
    "service '"@ + name + "' exited with "@ + status + "; restarting ("@ + decimal(left)
        + " left)"@
}

/// Records a failure: the task keeps it, and the command results carry it
/// unless it is held back for recovery.
pub open spec fn fail_with(v: TaskRunView, failure: Seq<char>) -> (TaskRunView, Seq<Result<(), Seq<char>>>) {
    (
        TaskRunView { failures: v.failures.push(failure), ..v },
        if v.defer_failure {
            Seq::empty()
        } else {
            seq![Err(failure)]
        },
    )
}

/// After a command failure: stop the generation under fail-fast, else go
/// on with the task's next command.
pub open spec fn after_failure(v: TaskRunView, results: Seq<Result<(), Seq<char>>>, fail_fast: bool) -> TaskStepView {
    TaskStepView {
        task: v,
        action: if fail_fast {
            TaskActionView::FailedFast
        } else {
            next_action_spec(v)
        },
        results,
    }
}

/// One step of a task on an observed event.
pub open spec fn step_spec(v: TaskRunView, e: TaskEvent, fail_fast: bool) -> TaskStepView {
    match e {
        TaskEvent::CwdMissing { cwd } => {
            let (w, res) = fail_with(v, cwd_failure(v.name, cwd@));
            let w2 = TaskRunView { pending: Seq::empty(), ..w };
            TaskStepView {
                task: w2,
                action: if fail_fast {
                    TaskActionView::FailedFast
                } else {
                    TaskActionView::Finished
                },
                results: res,
            }
        },
        TaskEvent::DeadlineReached { elapsed_ms, elapsed_text } => TaskStepView {
            task: TaskRunView {
                pending: Seq::empty(),
                running: None,
                failures: v.failures.push(timeout_failure(v.name, elapsed_text@)),
                recoverable: false,
                timed_out: true,
                ..v
            },
            action: TaskActionView::TimedOut,
            results: seq![Err(timeout_result(v.name, elapsed_ms))],
        },
        TaskEvent::Spawned => if v.running is None && v.pending.len() > 0 {
            TaskStepView {
                task: TaskRunView {
                    pending: v.pending.drop_first(),
                    running: Some(v.pending[0]),
                    started: true,
                    ..v
                },
                action: TaskActionView::Poll,
                results: Seq::empty(),
            }
        } else {
            TaskStepView { task: v, action: current_action(v), results: Seq::empty() }
        },
        TaskEvent::SpawnFailed { error } => if v.running is None && v.pending.len() > 0 {
            if v.service && v.started {
                let f = respawn_failure(v.name, error@);
                TaskStepView {
                    task: TaskRunView { pending: v.pending.drop_first(), failures: v.failures.push(f), ..v },
                    action: TaskActionView::Finished,
                    results: seq![Err(f)],
                }
            } else {
            let (w, res) = fail_with(
                TaskRunView { pending: v.pending.drop_first(), ..v },
                start_failure(v.pending[0], error@),
            );
            after_failure(w, res, fail_fast)
            }
        } else {
            TaskStepView { task: v, action: current_action(v), results: Seq::empty() }
        },
        TaskEvent::StillRunning => TaskStepView {
            task: v,
            action: current_action(v),
            results: Seq::empty(),
        },
        TaskEvent::Exited { success, status } => match v.running {
            None => TaskStepView { task: v, action: next_action_spec(v), results: Seq::empty() },
            Some(cmd) => {
                let idle = TaskRunView { running: None, ..v };
                if v.service {
                    if success {
                        TaskStepView { task: idle, action: TaskActionView::Finished, results: Seq::empty() }
                    } else if v.restarts_left > 0 {
                        let left = (v.restarts_left - 1) as nat;
                        TaskStepView {
                            task: TaskRunView {
                                pending: seq![cmd] + v.pending,
                                restarts_left: left,
                                ..idle
                            },
                            action: TaskActionView::Restart {
                                warning: restart_warning(v.name, status@, left),
                            },
                            results: Seq::empty(),
                        }
                    } else {
                        let f = service_failure(v.name);
                        TaskStepView {
                            task: TaskRunView { failures: v.failures.push(f), ..idle },
                            action: TaskActionView::Finished,
                            results: seq![Err(f)],
                        }
                    }
                } else if success {
                    TaskStepView { task: idle, action: next_action_spec(idle), results: seq![Ok(())] }
                } else {
                    let (w, res) = fail_with(idle, exit_failure(cmd, status@));
                    after_failure(w, res, fail_fast)
                }
            },
        },
        TaskEvent::WaitErrored { error } => match v.running {
            None => TaskStepView { task: v, action: next_action_spec(v), results: Seq::empty() },
            Some(_) if v.service => TaskStepView { task: v, action: TaskActionView::Poll, results: Seq::empty() },
            Some(cmd) => {
                let idle = TaskRunView { running: None, ..v };
                let (w, res) = fail_with(idle, wait_failure(cmd, error@));
                after_failure(w, res, fail_fast)
            },
        },
    }
}

/// The action for the task as it stands: poll a running child, else go on.
pub open spec fn current_action(v: TaskRunView) -> TaskActionView {
    if v.running is Some {
        TaskActionView::Poll
    } else {
        next_action_spec(v)
    }
}

fn cat2(a: &str, b: &str) -> (r: String)
    ensures
        r@ == a@ + b@,
{
    let mut s = owned(a);
    s.append(b);
    s
}

fn cat3(a: &str, b: &str, c: &str) -> (r: String)
    ensures
        r@ == a@ + b@ + c@,
{
    let mut s = owned(a);
    s.append(b);
    s.append(c);
    s
}

fn cat5(a: &str, b: &str, c: &str, d: &str, e: &str) -> (r: String)
    ensures
        r@ == a@ + b@ + c@ + d@ + e@,
{
    let mut s = owned(a);
    s.append(b);
    s.append(c);
    s.append(d);
    s.append(e);
    s
}

impl TaskRun {
    /// A task that has not started: every command pending. Recovery is
    /// possible, and failures are held back for it, when the task has
    /// recovery commands.
    pub fn new(name: String, commands: Vec<String>, has_recovery: bool, service: bool) -> (r: Self)
        ensures
            r@.name == name@,
            r@.pending == crate::text::views(commands@),
            r@.running is None,
            r@.failures.len() == 0,
            r@.defer_failure == has_recovery,
            r@.recoverable == has_recovery,
            r@.service == service,
            r@.restarts_left == SERVICE_MAX_RESTARTS,
            !r@.timed_out,
            !r@.started,
    {
        let r = TaskRun {
            name,
            pending: commands,
            running: None,
            failures: Vec::new(),
            defer_failure: has_recovery,
            recoverable: has_recovery,
            service,
            restarts_left: SERVICE_MAX_RESTARTS,
            timed_out: false,
            started: false,
        };
        assert(crate::text::views(r.failures@) =~= Seq::<Seq<char>>::empty());
        r
    }

    /// The action for the task as it stands.
    pub fn current_action(&self) -> (r: TaskAction)
        ensures
            r@ == current_action(self@),
    {
        if self.running.is_some() {
            TaskAction::Poll
        } else {
            self.next_action()
        }
    }

    fn next_action(&self) -> (r: TaskAction)
        ensures
            r@ == next_action_spec(self@),
    {
        if self.pending.len() == 0 {
            TaskAction::Finished
        } else {
            TaskAction::Spawn(self.pending[0].clone())
        }
    }

    fn fail(&mut self, failure: String, results: &mut Vec<Result<(), String>>)
        ensures
            final(self)@ == fail_with(old(self)@, failure@).0,
            result_views(final(results)@) == result_views(old(results)@) + fail_with(
                old(self)@,
                failure@,
            ).1,
    {
        let ghost before = result_views(results@);
        if !self.defer_failure {
            results.push(Err(failure.clone()));
        }
        self.failures.push(failure);
        proof {
            assert(crate::text::views(self.failures@) =~= crate::text::views(
                old(self).failures@,
            ).push(failure@));
            assert(result_views(results@) =~= before + fail_with(old(self)@, failure@).1);
        }
    }

    fn after_failure(&self, fail_fast: bool) -> (r: TaskAction)
        ensures
            r@ == (if fail_fast {
                TaskActionView::FailedFast
            } else {
                next_action_spec(self@)
            }),
    {
        if fail_fast {
            TaskAction::FailedFast
        } else {
            self.next_action()
        }
    }

    /// Advances the task on what the caller observed. The command results
    /// the step produces are appended to `results`; the returned action is
    /// what the caller does next.
    #[verifier::rlimit(60)]
    #[verifier::spinoff_prover]
    pub fn step(&mut self, event: TaskEvent, fail_fast: bool, results: &mut Vec<Result<(), String>>) -> (r: TaskAction)
        ensures
            final(self)@ == step_spec(old(self)@, event, fail_fast).task,
            r@ == step_spec(old(self)@, event, fail_fast).action,
            result_views(final(results)@) == result_views(old(results)@) + step_spec(
                old(self)@,
                event,
                fail_fast,
            ).results,
    {
        let ghost rs0 = result_views(results@);
        match event {
            TaskEvent::CwdMissing { cwd } => {
                let f = cat3("Task '", self.name.as_str(), "' cwd is missing or not a directory: ");
                let f = cat2(f.as_str(), cwd.as_str());
                self.fail(f, results);
                self.pending = Vec::new();
                proof {
                    assert(crate::text::views(self.pending@) =~= Seq::<Seq<char>>::empty());
                }
                if fail_fast {
                    TaskAction::FailedFast
                } else {
                    TaskAction::Finished
                }
            },
            TaskEvent::DeadlineReached { elapsed_ms, elapsed_text } => {
                let f = cat5("job '", self.name.as_str(), "' timed out after ", elapsed_text.as_str(), " and was terminated");
                let ms = decimal_string(elapsed_ms);
                let m = cat5("Job '", self.name.as_str(), "' timed out after ", ms.as_str(), "ms and was terminated");
                results.push(Err(m));
                self.failures.push(f);
                self.pending = Vec::new();
                self.running = None;
                self.recoverable = false;
                self.timed_out = true;
                proof {
                    assert(crate::text::views(self.pending@) =~= Seq::<Seq<char>>::empty());
                    assert(crate::text::views(self.failures@) =~= crate::text::views(
                        old(self).failures@,
                    ).push(timeout_failure(old(self)@.name, elapsed_text@)));
                    assert(result_views(results@) =~= rs0 + seq![Err(timeout_result(old(self)@.name, elapsed_ms))]);
                }
                TaskAction::TimedOut
            },
            TaskEvent::Spawned => {
                if self.running.is_none() && self.pending.len() > 0 {
                    let cmd = self.pending.remove(0);
                    self.running = Some(cmd);
                    self.started = true;
                    proof {
                        assert(crate::text::views(self.pending@) =~= crate::text::views(
                            old(self).pending@,
                        ).drop_first());
                        assert(results@ == old(results)@);
                        assert(result_views(results@) =~= rs0 + Seq::<Result<(), Seq<char>>>::empty());
                    }
                    TaskAction::Poll
                } else {
                    assert(result_views(results@) =~= rs0 + Seq::<Result<(), Seq<char>>>::empty());
                    self.current_action()
                }
            },
            TaskEvent::SpawnFailed { error } => {
                if self.running.is_none() && self.pending.len() > 0 {
                    let cmd = self.pending.remove(0);
                    proof {
                        assert(crate::text::views(self.pending@) =~= crate::text::views(
                            old(self).pending@,
                        ).drop_first());
                    }
                    if self.service && self.started {
                        let f = cat3("Service ", self.name.as_str(), " respawn failed: ");
                        let f = cat2(f.as_str(), error.as_str());
                        results.push(Err(f.clone()));
                        self.failures.push(f);
                        proof {
                            assert(crate::text::views(self.failures@) =~= crate::text::views(
                                old(self).failures@,
                            ).push(respawn_failure(old(self)@.name, error@)));
                            assert(result_views(results@) =~= rs0 + seq![Err(respawn_failure(old(self)@.name, error@))]);
                        }
                        return TaskAction::Finished;
                    }
                    let f = cat3("Command ", cmd.as_str(), " failed to start: ");
                    let f = cat2(f.as_str(), error.as_str());
                    self.fail(f, results);
                    self.after_failure(fail_fast)
                } else {
                    assert(result_views(results@) =~= rs0 + Seq::<Result<(), Seq<char>>>::empty());
                    self.current_action()
                }
            },
            TaskEvent::StillRunning => {
                assert(result_views(results@) =~= rs0 + Seq::<Result<(), Seq<char>>>::empty());
                self.current_action()
            },
            TaskEvent::Exited { success, status } => {
                match self.running.take() {
                    None => {
                        assert(result_views(results@) =~= rs0 + Seq::<Result<(), Seq<char>>>::empty());
                        self.next_action()
                    },
                    Some(cmd) => {
                        if self.service {
                            if success {
                                assert(result_views(results@) =~= rs0 + Seq::<Result<(), Seq<char>>>::empty());
                                TaskAction::Finished
                            } else if self.restarts_left > 0 {
                                self.restarts_left = self.restarts_left - 1;
                                let left = decimal_string(self.restarts_left as u64);
                                let w = cat5("service '", self.name.as_str(), "' exited with ", status.as_str(), "; restarting (");
                                let w = cat3(w.as_str(), left.as_str(), " left)");
                                let ghost pend = crate::text::views(self.pending@);
                                self.pending.insert(0, cmd);
                                proof {
                                    assert(crate::text::views(self.pending@) =~= seq![old(self)@.running->0] + pend);
                                    assert(result_views(results@) =~= rs0 + Seq::<Result<(), Seq<char>>>::empty());
                                }
                                TaskAction::Restart { warning: w }
                            } else {
                                let f = cat3("Service ", self.name.as_str(), " has failed after 3 restarts");
                                results.push(Err(f.clone()));
                                self.failures.push(f);
                                proof {
                                    assert(crate::text::views(self.failures@) =~= crate::text::views(
                                        old(self).failures@,
                                    ).push(service_failure(old(self)@.name)));
                                    assert(result_views(results@) =~= rs0 + seq![Err(service_failure(old(self)@.name))]);
                                }
                                TaskAction::Finished
                            }
                        } else if success {
                            results.push(Ok(()));
                            assert(result_views(results@) =~= rs0 + seq![Ok::<(), Seq<char>>(())]);
                            self.next_action()
                        } else {
                            let f = cat3("Command ", cmd.as_str(), " has failed with ");
                            let f = cat2(f.as_str(), status.as_str());
                            self.fail(f, results);
                            self.after_failure(fail_fast)
                        }
                    },
                }
            },
            TaskEvent::WaitErrored { error } => {
                if self.service && self.running.is_some() {
                    assert(result_views(results@) =~= rs0 + Seq::<Result<(), Seq<char>>>::empty());
                    return TaskAction::Poll;
                }
                match self.running.take() {
                    None => {
                        assert(result_views(results@) =~= rs0 + Seq::<Result<(), Seq<char>>>::empty());
                        self.next_action()
                    },
                    Some(cmd) => {
                        let f = cat3("Command ", cmd.as_str(), " has errored with ");
                        let f = cat2(f.as_str(), error.as_str());
                        self.fail(f, results);
                        self.after_failure(fail_fast)
                    },
                }
            },
        }
    }
}

/// Task concurrency of a stage: one for a serial stage; for a group, the
/// generation's override when it has one, else the configured bound, and
/// never more than the group's task count.
pub open spec fn stage_limit_spec(parallel: bool, task_count: usize, effective: Option<usize>, configured: usize) -> usize {
    if !parallel {
        1
    } else {
        let limit = match effective {
            Some(l) => l,
            None => configured,
        };
        if limit < task_count {
            limit
        } else {
            task_count
        }
    }
}

pub fn stage_limit(parallel: bool, task_count: usize, effective: Option<usize>, configured: usize) -> (r: usize)
    ensures
        r == stage_limit_spec(parallel, task_count, effective, configured),
{
    if !parallel {
        return 1;
    }
    let limit = match effective {
        Some(l) => l,
        None => configured,
    };
    if limit < task_count {
        limit
    } else {
        task_count
    }
}

/// Where a finished task goes: a task with failures that may still be
/// recovered waits for the recovery pass; any other is recorded now.
pub open spec fn awaits_recovery_spec(v: TaskRunView) -> bool {
    v.failures.len() > 0 && v.recoverable
}

/// The terminal state of a recorded task: passed without failures, timed
/// out when its deadline elapsed, failed otherwise.
pub open spec fn terminal_state_spec(v: TaskRunView) -> TaskState {
    if v.failures.len() == 0 {
        TaskState::Passed
    } else if v.timed_out {
        TaskState::TimedOut
    } else {
        TaskState::Failed
    }
}

impl TaskRun {
    pub fn awaits_recovery(&self) -> (r: bool)
        ensures
            r == awaits_recovery_spec(self@),
    {
        self.failures.len() > 0 && self.recoverable
    }

    pub fn terminal_state(&self) -> (r: TaskState)
        ensures
            r == terminal_state_spec(self@),
    {
        if self.failures.len() == 0 {
            TaskState::Passed
        } else if self.timed_out {
            TaskState::TimedOut
        } else {
            TaskState::Failed
        }
    }

    /// The task's outcome as the run records it.
    pub fn outcome(&self) -> (r: TaskOutcome)
        ensures
            r@ == (if self@.failures.len() == 0 {
                TaskOutcomeView::Passed
            } else {
                TaskOutcomeView::Failed(self@.failures)
            }),
    {
        if self.failures.len() == 0 {
            TaskOutcome::Passed
        } else {
            TaskOutcome::Failed { failures: crate::text::clone_strings(&self.failures) }
        }
    }
}

/// A task with a live (or once live) child when a generation stops: its
/// place, identity, how long it ran and whether stopping it needed a kill.
#[derive(Clone, Debug, PartialEq, Eq)]
pub struct LiveTask {
    pub position: usize,
    pub name: String,
    pub group_occurrence: Option<String>,
    pub duration_ms: Option<u64>,
    pub escalated: bool,
}

/// A task that never started when a generation stops.
#[derive(Clone, Debug, PartialEq, Eq)]
pub struct WaitingTask {
    pub position: usize,
    pub name: String,
    pub group_occurrence: Option<String>,
}

/// A task's reported identity: its group occurrence when it runs in a named
/// group, else its name.
pub open spec fn task_id(name: Seq<char>, group: Option<Seq<char>>) -> Seq<char> {
    match group {
        Some(g) => g,
        None => name,
    }
}

pub open spec fn snapshot_matches(
    s: TaskSnapshot,
    position: usize,
    name: Seq<char>,
    group: Option<Seq<char>>,
    duration_ms: Option<u64>,
) -> bool {
    &&& s.position == position
    &&& s.id@ == task_id(name, group)
    &&& s.name@ == name
    &&& s.state == TaskState::Cancelled
    &&& s.duration_ms == duration_ms
}

/// Every stopped task gets a cancelled snapshot: first the live ones, with
/// how long they ran, then the waiting ones, with no duration.
pub open spec fn stopped_snapshots(
    r: Seq<TaskSnapshot>,
    live: Seq<LiveTask>,
    waiting: Seq<WaitingTask>,
) -> bool {
    &&& r.len() == live.len() + waiting.len()
    &&& forall|i: int|
        0 <= i < live.len() ==> snapshot_matches(
            #[trigger] r[i],
            live[i].position,
            live[i].name@,
            opt_chars(live[i].group_occurrence),
            live[i].duration_ms,
        )
    &&& forall|j: int|
        0 <= j < waiting.len() ==> snapshot_matches(
            #[trigger] r[live.len() + j],
            waiting[j].position,
            waiting[j].name@,
            opt_chars(waiting[j].group_occurrence),
            None,
        )
}

fn opt_clone(o: &Option<String>) -> (r: Option<String>)
    ensures
        opt_chars(r) == opt_chars(*o),
{
    match o {
        Some(s) => Some(s.clone()),
        None => None,
    }
}

fn cancelled_snapshot(position: usize, name: &String, group: &Option<String>, duration_ms: Option<u64>) -> (r: TaskSnapshot)
    ensures
        snapshot_matches(r, position, name@, opt_chars(*group), duration_ms),
{
    let id = match group {
        Some(g) => g.clone(),
        None => name.clone(),
    };
    TaskSnapshot { position, id, name: name.clone(), state: TaskState::Cancelled, duration_ms }
}

/// The cancelled snapshots of a stopped generation.
pub fn stopped_task_snapshots(live: &[LiveTask], waiting: &[WaitingTask]) -> (r: Vec<TaskSnapshot>)
    requires
        live@.len() + waiting@.len() <= usize::MAX,
    ensures
        stopped_snapshots(r@, live@, waiting@),
{
    let mut out: Vec<TaskSnapshot> = Vec::new();
    let mut i: usize = 0;
    while i < live.len()
        invariant
            i <= live@.len(),
            out@.len() == i,
            forall|k: int|
                0 <= k < i ==> snapshot_matches(
                    #[trigger] out@[k],
                    live@[k].position,
                    live@[k].name@,
                    opt_chars(live@[k].group_occurrence),
                    live@[k].duration_ms,
                ),
        decreases live@.len() - i,
    {
        let t = &live[i];
        out.push(cancelled_snapshot(t.position, &t.name, &t.group_occurrence, t.duration_ms));
        i = i + 1;
    }
    let mut j: usize = 0;
    while j < waiting.len()
        invariant
            j <= waiting@.len(),
            out@.len() == live@.len() + j,
            forall|k: int|
                0 <= k < live@.len() ==> snapshot_matches(
                    #[trigger] out@[k],
                    live@[k].position,
                    live@[k].name@,
                    opt_chars(live@[k].group_occurrence),
                    live@[k].duration_ms,
                ),
            forall|k: int|
                0 <= k < j ==> snapshot_matches(
                    #[trigger] out@[live@.len() + k],
                    waiting@[k].position,
                    waiting@[k].name@,
                    opt_chars(waiting@[k].group_occurrence),
                    None,
                ),
        decreases waiting@.len() - j,
    {
        let t = &waiting[j];
        out.push(cancelled_snapshot(t.position, &t.name, &t.group_occurrence, None));
        j = j + 1;
    }
    out
}

/// A cancellation escalated when stopping any live task needed a kill.
pub open spec fn disposition_spec(live: Seq<LiveTask>) -> CancelDisposition {
    if exists|i: int| 0 <= i < live.len() && (#[trigger] live[i]).escalated {
        CancelDisposition::Escalated
    } else {
        CancelDisposition::Graceful
    }
}

pub fn cancel_disposition(live: &[LiveTask]) -> (r: CancelDisposition)
    ensures
        r == disposition_spec(live@),
{
    let mut i: usize = 0;
    while i < live.len()
        invariant
            i <= live@.len(),
            forall|k: int| 0 <= k < i ==> !(#[trigger] live@[k]).escalated,
        decreases live@.len() - i,
    {
        if live[i].escalated {
            return CancelDisposition::Escalated;
        }
        i = i + 1;
    }
    CancelDisposition::Graceful
}

/// The outcomes fail-fast records for the rest of a generation: live tasks
/// were cancelled, waiting ones skipped; each with its place, name and
/// group occurrence, live ones first.
pub open spec fn fail_fast_outcomes_spec(
    r: Seq<(usize, Seq<char>, Option<Seq<char>>, TaskOutcomeView)>,
    live: Seq<LiveTask>,
    waiting: Seq<WaitingTask>,
) -> bool {
    &&& r.len() == live.len() + waiting.len()
    &&& forall|i: int|
        0 <= i < live.len() ==> #[trigger] r[i] == (
            live[i].position,
            live[i].name@,
            opt_chars(live[i].group_occurrence),
            TaskOutcomeView::Cancelled,
        )
    &&& forall|j: int|
        0 <= j < waiting.len() ==> #[trigger] r[live.len() + j] == (
            waiting[j].position,
            waiting[j].name@,
            opt_chars(waiting[j].group_occurrence),
            TaskOutcomeView::Skipped,
        )
}

pub open spec fn outcome_record_views(v: Seq<(usize, String, Option<String>, TaskOutcome)>) -> Seq<
    (usize, Seq<char>, Option<Seq<char>>, TaskOutcomeView),
> {
    v.map_values(|o: (usize, String, Option<String>, TaskOutcome)| (o.0, o.1@, opt_chars(o.2), o.3@))
}

/// One outcome record holds this place, name, group occurrence and outcome.
pub open spec fn record_is(
    o: (usize, String, Option<String>, TaskOutcome),
    position: usize,
    name: Seq<char>,
    group: Option<Seq<char>>,
    outcome: TaskOutcomeView,
) -> bool {
    o.0 == position && o.1@ == name && opt_chars(o.2) == group && o.3@ == outcome
}

pub fn fail_fast_outcomes(live: &[LiveTask], waiting: &[WaitingTask]) -> (r: Vec<(usize, String, Option<String>, TaskOutcome)>)
    requires
        live@.len() + waiting@.len() <= usize::MAX,
    ensures
        fail_fast_outcomes_spec(outcome_record_views(r@), live@, waiting@),
{
    let mut out: Vec<(usize, String, Option<String>, TaskOutcome)> = Vec::new();
    let mut i: usize = 0;
    while i < live.len()
        invariant
            i <= live@.len(),
            out@.len() == i,
            forall|k: int|
                0 <= k < i ==> record_is(
                    #[trigger] out@[k],
                    live@[k].position,
                    live@[k].name@,
                    opt_chars(live@[k].group_occurrence),
                    TaskOutcomeView::Cancelled,
                ),
        decreases live@.len() - i,
    {
        let t = &live[i];
        out.push((t.position, t.name.clone(), opt_clone(&t.group_occurrence), TaskOutcome::Cancelled));
        i = i + 1;
    }
    let mut j: usize = 0;
    while j < waiting.len()
        invariant
            j <= waiting@.len(),
            out@.len() == live@.len() + j,
            forall|k: int|
                0 <= k < live@.len() ==> record_is(
                    #[trigger] out@[k],
                    live@[k].position,
                    live@[k].name@,
                    opt_chars(live@[k].group_occurrence),
                    TaskOutcomeView::Cancelled,
                ),
            forall|k: int|
                0 <= k < j ==> record_is(
                    #[trigger] out@[live@.len() + k],
                    waiting@[k].position,
                    waiting@[k].name@,
                    opt_chars(waiting@[k].group_occurrence),
                    TaskOutcomeView::Skipped,
                ),
        decreases waiting@.len() - j,
    {
        let t = &waiting[j];
        out.push((t.position, t.name.clone(), opt_clone(&t.group_occurrence), TaskOutcome::Skipped));
        j = j + 1;
    }
    proof {
        let v = outcome_record_views(out@);
        assert forall|k: int| 0 <= k < live@.len() implies #[trigger] v[k] == (
            live@[k].position,
            live@[k].name@,
            opt_chars(live@[k].group_occurrence),
            TaskOutcomeView::Cancelled,
        ) by {
            assert(record_is(out@[k], live@[k].position, live@[k].name@, opt_chars(live@[k].group_occurrence), TaskOutcomeView::Cancelled));
        }
        assert forall|k: int| 0 <= k < waiting@.len() implies #[trigger] v[live@.len() + k] == (
            waiting@[k].position,
            waiting@[k].name@,
            opt_chars(waiting@[k].group_occurrence),
            TaskOutcomeView::Skipped,
        ) by {
            assert(record_is(out@[live@.len() + k], waiting@[k].position, waiting@[k].name@, opt_chars(waiting@[k].group_occurrence), TaskOutcomeView::Skipped));
        }
    }
    out
}

/// What a recovery pass does with an approval decision: keep the pending
/// recoveries for the reaping cancel, skip recovery with a reason, or run it.
#[derive(Clone, Debug, PartialEq, Eq)]
pub enum RecoveryVerdict {
    Preserve,
    NotRun(String),
    Run,
}

pub enum RecoveryVerdictView {
    Preserve,
    NotRun(Seq<char>),
    Run,
}

pub open spec fn verdict_view(v: RecoveryVerdict) -> RecoveryVerdictView {
    match v {
        RecoveryVerdict::Preserve => RecoveryVerdictView::Preserve,
        RecoveryVerdict::NotRun(r) => RecoveryVerdictView::NotRun(r@),
        RecoveryVerdict::Run => RecoveryVerdictView::Run,
    }
}

/// The verdict for a decision: a cancelled decision (or a cancellation that
/// arrived meanwhile) preserves the pending recoveries; the skip policy and
/// every other refusal are reported with their reason; approval runs them.
pub open spec fn recovery_verdict_spec(skip_policy: bool, decision: ApprovalDecision, cancelled: bool) -> RecoveryVerdictView {
    if decision == ApprovalDecision::Cancelled || cancelled {
        RecoveryVerdictView::Preserve
    } else if decision == ApprovalDecision::Approved {
        RecoveryVerdictView::Run
    } else if skip_policy {
        RecoveryVerdictView::NotRun("recovery_policy: skip"@)
    } else {
        RecoveryVerdictView::NotRun(
            match decision {
                ApprovalDecision::NoTty => "no TTY"@,
                ApprovalDecision::Eof => "EOF"@,
                ApprovalDecision::Invalid => "invalid answer"@,
                ApprovalDecision::Declined => "declined"@,
                _ => "approval timeout"@,
            },
        )
    }
}

pub fn recovery_verdict(skip_policy: bool, decision: ApprovalDecision, cancelled: bool) -> (r: RecoveryVerdict)
    ensures
        verdict_view(r) == recovery_verdict_spec(skip_policy, decision, cancelled),
{
    if decision == ApprovalDecision::Cancelled || cancelled {
        return RecoveryVerdict::Preserve;
    }
    if decision == ApprovalDecision::Approved {
        return RecoveryVerdict::Run;
    }
    if skip_policy {
        return RecoveryVerdict::NotRun(owned("recovery_policy: skip"));
    }
    RecoveryVerdict::NotRun(
        match decision {
            ApprovalDecision::NoTty => owned("no TTY"),
            ApprovalDecision::Eof => owned("EOF"),
            ApprovalDecision::Invalid => owned("invalid answer"),
            ApprovalDecision::Declined => owned("declined"),
            _ => owned("approval timeout"),
        },
    )
}

/// The warning when recovery is not run: the jobs, in order, and why.
pub open spec fn not_run_warning_spec(jobs: Seq<Seq<char>>, reason: Seq<char>) -> Seq<char> {
    "Recovery for job(s) "@ + crate::text::join(jobs, ", "@) + " was not run: "@ + reason
}

pub fn not_run_warning(jobs: &Vec<String>, reason: &str) -> (r: String)
    ensures
        r@ == not_run_warning_spec(crate::text::views(jobs@), reason@),
{
    let joined = crate::text::join_strings(jobs, ", ");
    cat3(cat2("Recovery for job(s) ", joined.as_str()).as_str(), " was not run: ", reason)
}

/// The result recorded for a failed task whose recovery did not run: its
/// first failure, else a generic one.
pub open spec fn unrecovered_result_spec(v: TaskRunView) -> Seq<char> {
    if v.failures.len() > 0 {
        v.failures[0]
    } else {
        "Job '"@ + v.name + "' failed"@
    }
}

/// The task prepared to run a command list (recovery, then the original
/// commands for verification): every command pending, no failures, none
/// held back.
pub open spec fn rerun_spec(v: TaskRunView, commands: Seq<Seq<char>>) -> TaskRunView {
    TaskRunView { pending: commands, running: None, failures: Seq::empty(), defer_failure: false, ..v }
}

/// The result of a finished recovery: after a failure, the task keeps its
/// original failures followed by the recovery's, and the result is the last
/// of them; a passing recovery goes on to verification.
pub open spec fn recovery_result_spec(original: Seq<Seq<char>>, v: TaskRunView) -> Option<(Seq<Seq<char>>, Seq<char>)> {
    if v.failures.len() == 0 {
        None
    } else {
        Some((original + v.failures, v.failures.last()))
    }
}

/// The result of verification: passed when the original commands passed,
/// else their last failure.
pub open spec fn verification_result_spec(v: TaskRunView) -> Result<(), Seq<char>> {
    if v.failures.len() == 0 {
        Ok(())
    } else {
        Err(v.failures.last())
    }
}

impl TaskRun {
    pub fn unrecovered_result(&self) -> (r: String)
        ensures
            r@ == unrecovered_result_spec(self@),
    {
        if self.failures.len() > 0 {
            self.failures[0].clone()
        } else {
            cat3("Job '", self.name.as_str(), "' failed")
        }
    }

    /// Prepares the task to run `commands` from the start.
    pub fn rerun(&mut self, commands: Vec<String>)
        ensures
            final(self)@ == rerun_spec(old(self)@, crate::text::views(commands@)),
    {
        self.pending = commands;
        self.running = None;
        self.failures = Vec::new();
        self.defer_failure = false;
        assert(crate::text::views(self.failures@) =~= Seq::<Seq<char>>::empty());
    }

    /// Ends a recovery run. On failure the task's failures become the
    /// original ones followed by the recovery's, and the returned result is
    /// the last failure; `None` when recovery passed.
    pub fn finish_recovery(&mut self, original: Vec<String>) -> (r: Option<String>)
        ensures
            match recovery_result_spec(crate::text::views(original@), old(self)@) {
                None => r is None && final(self)@ == old(self)@,
                Some((failures, last)) => r matches Some(m) && m@ == last
                    && final(self)@ == TaskRunView { failures, ..old(self)@ },
            },
    {
        if self.failures.len() == 0 {
            return None;
        }
        let last = self.failures[self.failures.len() - 1].clone();
        let mut merged = original;
        let ghost o = crate::text::views(merged@);
        crate::text::extend_strings(&mut merged, &self.failures);
        self.failures = merged;
        proof {
            assert(crate::text::views(self.failures@) =~= o + crate::text::views(old(self).failures@));
        }
        Some(last)
    }

    pub fn verification_result(&self) -> (r: Result<(), String>)
        ensures
            match r {
                Ok(()) => verification_result_spec(self@) == Ok::<(), Seq<char>>(()),
                Err(m) => verification_result_spec(self@) == Err::<(), Seq<char>>(m@),
            },
    {
        if self.failures.len() == 0 {
            Ok(())
        } else {
            Err(self.failures[self.failures.len() - 1].clone())
        }
    }
}

/// A refused or skipped recovery never hides the original failure: the task
/// is recorded with its original failures, and its result is the first one.
/// A failed recovery keeps the original failures before its own, so the
/// task stays failed; only a passing verification makes it pass.
pub proof fn law_recovery_never_hides_failure(v: TaskRunView, original: Seq<Seq<char>>)
    requires
        original.len() > 0,
    ensures
        v.failures.len() > 0 ==> unrecovered_result_spec(v) == v.failures[0],
        recovery_result_spec(original, v) matches Some((failures, _)) ==> failures.len() > 0
            && failures.take(original.len() as int) == original,
{
    if recovery_result_spec(original, v) is Some {
        assert((original + v.failures).take(original.len() as int) =~= original);
    }
}

/// The stages of a generation and the tasks in flight, each task named by
/// its plan position. Tasks of one stage run at most `stage_limit` at a
/// time; the next stage starts only when the current one has neither
/// active nor queued tasks (a barrier).
#[derive(Clone, Debug, PartialEq, Eq)]
pub struct StageQueue {
    /// Each stage: whether it is a parallel group, and its tasks in order.
    pub stages: Vec<(bool, Vec<usize>)>,
    /// The index of the next stage to start.
    pub next_stage: usize,
    pub queued: Vec<usize>,
    pub active: Vec<usize>,
    pub stage_limit: usize,
}

pub struct StageQueueView {
    pub stages: Seq<(bool, Seq<usize>)>,
    pub next_stage: int,
    pub queued: Seq<usize>,
    pub active: Seq<usize>,
    pub stage_limit: usize,
}

impl View for StageQueue {
    type V = StageQueueView;

    open spec fn view(&self) -> StageQueueView {
        StageQueueView {
            stages: self.stages@.map_values(|st: (bool, Vec<usize>)| (st.0, st.1@)),
            next_stage: self.next_stage as int,
            queued: self.queued@,
            active: self.active@,
            stage_limit: self.stage_limit,
        }
    }
}

/// How many queued tasks start now: as many as free slots allow.
pub open spec fn startable_count(v: StageQueueView) -> int {
    let free = if v.stage_limit > v.active.len() {
        v.stage_limit - v.active.len()
    } else {
        0
    };
    if free < v.queued.len() {
        free
    } else {
        v.queued.len() as int
    }
}

/// Starts the next stage when the current one is drained, then fills the
/// free slots from the queue, in order.
pub open spec fn start_ready_spec(v: StageQueueView, configured: usize, effective: Option<usize>) -> StageQueueView {
    let w = if v.active.len() == 0 && v.queued.len() == 0 && v.next_stage < v.stages.len() {
        let st = v.stages[v.next_stage];
        StageQueueView {
            next_stage: v.next_stage + 1,
            queued: st.1,
            stage_limit: stage_limit_spec(st.0, st.1.len() as usize, effective, configured),
            ..v
        }
    } else {
        v
    };
    let k = startable_count(w);
    StageQueueView { active: w.active + w.queued.take(k), queued: w.queued.skip(k), ..w }
}

/// A generation is out of work when nothing is active or queued and no
/// stage is left.
pub open spec fn exhausted_spec(v: StageQueueView) -> bool {
    v.active.len() == 0 && v.queued.len() == 0 && v.next_stage >= v.stages.len()
}

/// The tasks that never started, in order: the queue, then every task of
/// the stages not yet started.
pub open spec fn waiting_spec(v: StageQueueView) -> Seq<usize> {
    v.queued + crate::rules::concat_all(unstarted_stages(v))
}

/// The task lists of the stages not yet started.
pub open spec fn unstarted_stages(v: StageQueueView) -> Seq<Seq<usize>> {
    if v.next_stage < v.stages.len() {
        v.stages.skip(v.next_stage).map_values(|st: (bool, Seq<usize>)| st.1)
    } else {
        Seq::empty()
    }
}

impl StageQueue {
    pub fn new(stages: Vec<(bool, Vec<usize>)>) -> (r: Self)
        ensures
            r@.stages == stages@.map_values(|st: (bool, Vec<usize>)| (st.0, st.1@)),
            r@.next_stage == 0,
            r@.queued.len() == 0,
            r@.active.len() == 0,
            r@.stage_limit == 0,
    {
        StageQueue { stages, next_stage: 0, queued: Vec::new(), active: Vec::new(), stage_limit: 0 }
    }

    pub fn is_exhausted(&self) -> (r: bool)
        ensures
            r == exhausted_spec(self@),
    {
        self.active.len() == 0 && self.queued.len() == 0 && self.next_stage >= self.stages.len()
    }

    /// Starts the next stage when the current one is drained (its limit
    /// from the stage kind, the generation's override and the configured
    /// bound), then starts queued tasks while slots are free. Returns the
    /// tasks that started.
    pub fn start_ready(&mut self, configured: usize, effective: Option<usize>) -> (r: Vec<usize>)
        ensures
            final(self)@ == start_ready_spec(old(self)@, configured, effective),
            r@ == final(self)@.active.skip(old(self)@.active.len() as int),
    {
        if self.active.len() == 0 && self.queued.len() == 0 && self.next_stage < self.stages.len() {
            let parallel = self.stages[self.next_stage].0;
            let tasks = self.stages[self.next_stage].1.clone();
            proof {
                assert(self@.stages[self@.next_stage] == (parallel, tasks@));
            }
            self.stage_limit = stage_limit(parallel, tasks.len(), effective, configured);
            self.queued = tasks;
            self.next_stage = self.next_stage + 1;
        }
        let ghost w = self@;
        let ghost k = startable_count(w);
        let mut started: Vec<usize> = Vec::new();
        let mut n: usize = 0;
        while self.active.len() < self.stage_limit && n < self.queued.len()
            invariant
                self@.stages == w.stages,
                self@.next_stage == w.next_stage,
                self@.stage_limit == w.stage_limit,
                self@.queued == w.queued,
                n <= w.queued.len(),
                n <= k,
                self@.active == w.active + w.queued.take(n as int),
                started@ == w.queued.take(n as int),
                k == startable_count(w),
            decreases w.queued.len() - n,
        {
            let t = self.queued[n];
            self.active.push(t);
            started.push(t);
            proof {
                assert(w.queued.take(n + 1) =~= w.queued.take(n as int).push(t));
            }
            n = n + 1;
        }
        proof {
            assert(n == k);
        }
        let mut rest: Vec<usize> = Vec::new();
        let mut j: usize = n;
        while j < self.queued.len()
            invariant
                n <= j <= self.queued@.len(),
                self@.queued == w.queued,
                rest@ == w.queued.subrange(n as int, j as int),
            decreases self.queued@.len() - j,
        {
            rest.push(self.queued[j]);
            j = j + 1;
            assert(rest@ =~= w.queued.subrange(n as int, j as int));
        }
        self.queued = rest;
        proof {
            assert(self@.queued =~= w.queued.skip(k));
            assert(self@.active.skip(old(self)@.active.len() as int) =~= w.queued.take(k)) by {
                if old(self)@.active.len() == 0 && old(self)@.queued.len() == 0 && old(self)@.next_stage < old(self)@.stages.len() {
                    assert(w.active.len() == 0);
                } else {
                    assert(w.active == old(self)@.active);
                }
            }
        }
        started
    }

    /// A task left the active set (finished, failed or moved to the
    /// background); the first entry for it is removed.
    pub fn release(&mut self, task: usize) -> (r: bool)
        ensures
            r == old(self)@.active.contains(task),
            final(self)@ == release_spec(old(self)@, task),
    {
        let mut i: usize = 0;
        while i < self.active.len()
            invariant
                i <= self.active@.len(),
                self@ == old(self)@,
                forall|k: int| 0 <= k < i ==> self.active@[k] != task,
            decreases self.active@.len() - i,
        {
            if self.active[i] == task {
                proof {
                    lemma_first_position(old(self)@.active, task, i as int);
                }
                self.active.remove(i);
                return true;
            }
            i = i + 1;
        }
        proof {
            lemma_no_position(old(self)@.active, task);
        }
        false
    }

    /// Empties the generation when it stops: returns the active tasks and
    /// the waiting ones (the queue, then the tasks of every stage not yet
    /// started), in order.
    pub fn drain(&mut self) -> (r: (Vec<usize>, Vec<usize>))
        ensures
            r.0@ == old(self)@.active,
            r.1@ == waiting_spec(old(self)@),
            exhausted_spec(final(self)@),
    {
        let mut active: Vec<usize> = Vec::new();
        std::mem::swap(&mut active, &mut self.active);
        let mut waiting: Vec<usize> = Vec::new();
        std::mem::swap(&mut waiting, &mut self.queued);
        let ghost v = old(self)@;
        let ghost rest = unstarted_stages(v);
        let start = if self.next_stage < self.stages.len() {
            self.next_stage
        } else {
            self.stages.len()
        };
        let mut i: usize = start;
        proof {
            assert(rest.take(0) =~= Seq::<Seq<usize>>::empty());
            assert(waiting@ =~= v.queued + crate::rules::concat_all(rest.take(0)));
        }
        while i < self.stages.len()
            invariant
                start <= i <= self.stages@.len(),
                start == (if v.next_stage < v.stages.len() { v.next_stage } else { v.stages.len() as int }),
                self@.stages == v.stages,
                rest == unstarted_stages(v),
                rest.len() == v.stages.len() - start,
                waiting@ == v.queued + crate::rules::concat_all(rest.take(i - start)),
            decreases self.stages@.len() - i,
        {
            let ghost before = waiting@;
            let tasks = self.stages[i].1.clone();
            let mut j: usize = 0;
            while j < tasks.len()
                invariant
                    j <= tasks@.len(),
                    waiting@ == before + tasks@.take(j as int),
                decreases tasks@.len() - j,
            {
                waiting.push(tasks[j]);
                j = j + 1;
                assert(waiting@ =~= before + tasks@.take(j as int));
            }
            proof {
                assert(tasks@.take(tasks@.len() as int) =~= tasks@);
                assert(self@.stages[i as int].1 == tasks@);
                assert(v.stages.skip(v.next_stage)[i - start] == v.stages[i as int]);
                assert(rest[i - start] == tasks@);
                assert(rest.take(i + 1 - start) =~= rest.take(i - start).push(tasks@));
                crate::rules::lemma_concat_all_push(rest.take(i - start), tasks@);
                assert(waiting@ =~= v.queued + crate::rules::concat_all(rest.take(i + 1 - start)));
            }
            i = i + 1;
        }
        proof {
            assert(rest.take(rest.len() as int) =~= rest);
        }
        self.next_stage = self.stages.len();
        (active, waiting)
    }
}

/// The index of the first `x` in `s`, or -1.
pub open spec fn position_of(s: Seq<usize>, x: usize) -> int
    decreases s.len(),
{
    if s.len() == 0 {
        -1
    } else if s[0] == x {
        0
    } else {
        let r = position_of(s.drop_first(), x);
        if r < 0 {
            -1
        } else {
            r + 1
        }
    }
}

/// A task leaves the active set: its first entry is removed.
pub open spec fn release_spec(v: StageQueueView, task: usize) -> StageQueueView {
    let i = position_of(v.active, task);
    if i < 0 {
        v
    } else {
        StageQueueView { active: v.active.remove(i), ..v }
    }
}

proof fn lemma_first_position(s: Seq<usize>, x: usize, i: int)
    requires
        0 <= i < s.len(),
        s[i] == x,
        forall|k: int| 0 <= k < i ==> s[k] != x,
    ensures
        position_of(s, x) == i,
    decreases s.len(),
{
    if i > 0 {
        lemma_first_position(s.drop_first(), x, i - 1);
    }
}

proof fn lemma_no_position(s: Seq<usize>, x: usize)
    requires
        forall|k: int| 0 <= k < s.len() ==> s[k] != x,
    ensures
        position_of(s, x) == -1,
        !s.contains(x),
    decreases s.len(),
{
    if s.len() > 0 {
        lemma_no_position(s.drop_first(), x);
    }
}

/// One scheduling operation of a generation.
pub enum QueueOp {
    /// Start the next stage if the current one is drained, and fill free
    /// slots.
    Start { configured: usize, effective: Option<usize> },
    /// A task left the active set.
    Release(usize),
}

/// The queue after a run of operations, in order.
pub open spec fn run_ops(v: StageQueueView, ops: Seq<QueueOp>) -> StageQueueView
    decreases ops.len(),
{
    if ops.len() == 0 {
        v
    } else {
        let w = run_ops(v, ops.drop_last());
        match ops.last() {
            QueueOp::Start { configured, effective } => start_ready_spec(w, configured, effective),
            QueueOp::Release(t) => release_spec(w, t),
        }
    }
}

/// The concurrency bound holds over a whole run: from a fresh queue (or any
/// state within its bound), whatever stages start and tasks finish, in
/// whatever order, the active tasks never outnumber the current stage's
/// limit (one for a serial stage; the override or the configured bound,
/// capped by the group size, for a group); and no stage is ever skipped or
/// revisited.
pub proof fn law_concurrency_bound_over_runs(v: StageQueueView, ops: Seq<QueueOp>)
    requires
        v.active.len() <= v.stage_limit,
    ensures
        run_ops(v, ops).active.len() <= run_ops(v, ops).stage_limit,
        run_ops(v, ops).next_stage >= v.next_stage,
        run_ops(v, ops).stages == v.stages,
    decreases ops.len(),
{
    if ops.len() > 0 {
        law_concurrency_bound_over_runs(v, ops.drop_last());
        let w = run_ops(v, ops.drop_last());
        match ops.last() {
            QueueOp::Start { configured, effective } => {},
            QueueOp::Release(t) => {
                let i = position_of(w.active, t);
                if i >= 0 {
                    lemma_position_in_range(w.active, t);
                }
            },
        }
    }
}

proof fn lemma_position_in_range(s: Seq<usize>, x: usize)
    ensures
        position_of(s, x) < s.len(),
        position_of(s, x) >= 0 ==> s[position_of(s, x)] == x,
    decreases s.len(),
{
    if s.len() > 0 && s[0] != x {
        lemma_position_in_range(s.drop_first(), x);
    }
}

/// The barrier: a stage starts only when the previous one has no active or
/// queued task, and within a stage no more tasks run than its limit.
pub proof fn law_stages_are_barriers(v: StageQueueView, configured: usize, effective: Option<usize>)
    requires
        v.active.len() <= v.stage_limit || v.queued.len() == 0,
    ensures
        start_ready_spec(v, configured, effective).next_stage != v.next_stage ==> v.active.len() == 0
            && v.queued.len() == 0,
        start_ready_spec(v, configured, effective).active.len() <= start_ready_spec(
            v,
            configured,
            effective,
        ).stage_limit || start_ready_spec(v, configured, effective).queued.len() == 0,
        start_ready_spec(v, configured, effective).active.len() + start_ready_spec(
            v,
            configured,
            effective,
        ).queued.len() >= v.active.len() + v.queued.len(),
{
}

/// What a generation does with one of its tasks after driving it.
#[derive(Clone, Copy, Debug, PartialEq, Eq, Structural)]
pub enum GenerationMove {
    /// The task is still running: poll it again.
    KeepPolling,
    /// A managed service is up: move it to the background set, where it no
    /// longer blocks later stages.
    ToBackground,
    /// Record the task's terminal outcome.
    Record,
    /// Hold the failed task for the recovery pass after the stage.
    AwaitRecovery,
    /// Fail-fast: the failed task is recorded, or held for recovery, and
    /// the generation stops, cancelling live tasks and skipping waiting ones.
    Stop { held_for_recovery: bool },
}

/// The generation's move for a task's next action: a running service goes
/// to the background; a finished task is held for recovery when it failed
/// and recovery is possible, else recorded; fail-fast stops the generation;
/// a timed-out task is recorded (never recovered) and stops the generation
/// only under fail-fast.
pub open spec fn after_task_spec(a: TaskActionView, v: TaskRunView, fail_fast: bool) -> GenerationMove {
    match a {
        TaskActionView::Finished => if awaits_recovery_spec(v) {
            GenerationMove::AwaitRecovery
        } else {
            GenerationMove::Record
        },
        TaskActionView::FailedFast => GenerationMove::Stop { held_for_recovery: awaits_recovery_spec(v) },
        TaskActionView::TimedOut => if fail_fast {
            GenerationMove::Stop { held_for_recovery: false }
        } else {
            GenerationMove::Record
        },
        _ => if v.service && v.running is Some {
            GenerationMove::ToBackground
        } else {
            GenerationMove::KeepPolling
        },
    }
}

pub fn after_task(a: &TaskAction, task: &TaskRun, fail_fast: bool) -> (r: GenerationMove)
    ensures
        r == after_task_spec(a@, task@, fail_fast),
{
    match a {
        TaskAction::Finished => if task.awaits_recovery() {
            GenerationMove::AwaitRecovery
        } else {
            GenerationMove::Record
        },
        TaskAction::FailedFast => GenerationMove::Stop { held_for_recovery: task.awaits_recovery() },
        TaskAction::TimedOut => if fail_fast {
            GenerationMove::Stop { held_for_recovery: false }
        } else {
            GenerationMove::Record
        },
        _ => if task.service && task.running.is_some() {
            GenerationMove::ToBackground
        } else {
            GenerationMove::KeepPolling
        },
    }
}

/// A generation's terminal hooks: the command to run after a passing or a
/// failing generation, and the settle delay (milliseconds) after which a
/// failure hook runs once the outcome is published.
#[derive(Clone, Debug, Default, PartialEq, Eq)]
pub struct GenerationHooks {
    pub success: Option<String>,
    pub failure: Option<String>,
    pub failure_settle_ms: Option<u64>,
}

/// What happens with the terminal hook of a finished generation.
#[derive(Clone, Debug, PartialEq, Eq)]
pub enum HookDecision {
    /// No hook is configured for this outcome.
    NoHook,
    /// Hand the failure hook to the worker, to run after the settle delay.
    Settle(PendingSettledHook),
    /// Run the hook now; `label` names it in warnings.
    RunNow { label: String, command: String },
}

pub open spec fn hook_label(success: bool) -> Seq<char> {
    if success {
        "success"@
    } else {
        "failure"@
    }
}

/// Decides the terminal hook: the success or failure hook for the outcome;
/// a failure hook with a settle delay is deferred to the worker (with the
/// revision, or 0 and an empty hash when none); any other configured hook
/// runs now.
pub fn hook_decision(success: bool, hooks: &GenerationHooks, run_id: u64, revision: Option<u64>, revision_hash: &Option<String>) -> (r: HookDecision)
    ensures
        match (if success { hooks.success } else { hooks.failure }) {
            None => r == HookDecision::NoHook,
            Some(c) => if !success && hooks.failure_settle_ms is Some {
                r matches HookDecision::Settle(h) && h.run_id == run_id && h.command@ == c@
                    && h.settle_ms == hooks.failure_settle_ms->0 && h.revision == (match revision {
                    Some(n) => n,
                    None => 0,
                }) && h.revision_hash@ == (match revision_hash {
                    Some(x) => x@,
                    None => Seq::<char>::empty(),
                })
            } else {
                r matches HookDecision::RunNow { label, command } && label@ == hook_label(success)
                    && command@ == c@
            },
        },
{
    let command = if success {
        &hooks.success
    } else {
        &hooks.failure
    };
    let command = match command {
        None => {
            return HookDecision::NoHook;
        },
        Some(c) => c,
    };
    if !success {
        if let Some(settle) = hooks.failure_settle_ms {
            let hash = match revision_hash {
                Some(x) => x.clone(),
                None => String::new(),
            };
            return HookDecision::Settle(
                PendingSettledHook {
                    run_id,
                    command: command.clone(),
                    settle_ms: settle,
                    revision: match revision {
                        Some(n) => n,
                        None => 0,
                    },
                    revision_hash: hash,
                },
            );
        }
    }
    HookDecision::RunNow {
        label: if success {
            owned("success")
        } else {
            owned("failure")
        },
        command: command.clone(),
    }
}

/// The warning after a hook that did not pass: its exit status or why
/// waiting on it failed.
pub open spec fn hook_warning_spec(label: Seq<char>, run_id: u64, outcome: Result<Seq<char>, Seq<char>>) -> Seq<char> {
    match outcome {
        Ok(status) => label + " hook for generation "@ + decimal(run_id as nat) + " failed with "@
            + status,
        Err(e) => label + " hook for generation "@ + decimal(run_id as nat) + " errored: "@ + e,
    }
}

pub fn hook_warning(label: &str, run_id: u64, outcome: &Result<String, String>) -> (r: String)
    ensures
        r@ == hook_warning_spec(
            label@,
            run_id,
            match outcome {
                Ok(s) => Ok(s@),
                Err(e) => Err(e@),
            },
        ),
{
    let mut m = owned(label);
    m.append(" hook for generation ");
    m.append(decimal_string(run_id).as_str());
    match outcome {
        Ok(status) => {
            m.append(" failed with ");
            m.append(status.as_str());
        },
        Err(e) => {
            m.append(" errored: ");
            m.append(e.as_str());
        },
    }
    m
}

/// Fail-fast and timeouts: with fail-fast, any failure of a command task
/// (a missing working directory, a failed spawn, a failing exit, a wait
/// error) stops the generation; without it the task goes on with its next
/// command. An elapsed deadline always ends the task as timed out, with a
/// failure, its pending commands dropped and recovery never offered.
pub proof fn law_fail_fast_and_timeouts(v: TaskRunView, e: TaskEvent, fail_fast: bool)
    requires
        !v.service,
    ensures
        (step_spec(v, e, fail_fast).task.failures.len() > v.failures.len() && !(e is DeadlineReached))
            ==> (step_spec(v, e, fail_fast).action == if fail_fast {
            TaskActionView::FailedFast
        } else if e is CwdMissing {
            TaskActionView::Finished
        } else {
            next_action_spec(step_spec(v, e, fail_fast).task)
        }),
        step_spec(v, e, false).action != TaskActionView::FailedFast,
        e is DeadlineReached ==> {
            let s = step_spec(v, e, fail_fast);
            &&& s.action == TaskActionView::TimedOut
            &&& s.task.timed_out && !s.task.recoverable
            &&& s.task.pending.len() == 0 && s.task.running is None
            &&& s.task.failures.len() == v.failures.len() + 1
            &&& terminal_state_spec(s.task) == TaskState::TimedOut
            &&& !awaits_recovery_spec(s.task)
        },
{
}

/// A managed service restarts after an unexpected exit while it has
/// attempts left, each restart using one; once none is left the exit is a
/// final failure. A deliberate (zero) exit finishes it without adding a
/// result; an error while waiting on it is ignored and it is polled again.
/// No event ever adds attempts.
pub proof fn law_service_restarts_are_bounded(v: TaskRunView, e: TaskEvent, fail_fast: bool)
    requires
        v.service,
        v.running is Some,
    ensures
        step_spec(v, e, fail_fast).task.restarts_left <= v.restarts_left,
        e matches TaskEvent::Exited { success, status } ==> {
            let s = step_spec(v, e, fail_fast);
            if success {
                s.action == TaskActionView::Finished && s.results.len() == 0
            } else if v.restarts_left > 0 {
                &&& s.task.restarts_left == v.restarts_left - 1
                &&& s.task.pending == seq![v.running->0] + v.pending
                &&& s.action is Restart
            } else {
                &&& s.action == TaskActionView::Finished
                &&& s.task.failures == v.failures.push(service_failure(v.name))
                &&& s.results == seq![Err::<(), Seq<char>>(service_failure(v.name))]
            }
        },
        e is WaitErrored ==> step_spec(v, e, fail_fast).action == TaskActionView::Poll
            && step_spec(v, e, fail_fast).task == v && step_spec(v, e, fail_fast).results.len() == 0,
{
}

} // verus!
