use funzzy::executor::{ApprovalDecision, CancelDisposition};
use funzzy::plan::TaskOutcome;
use funzzy::task_machine::{
    cancel_disposition, fail_fast_outcomes, not_run_warning, recovery_verdict, stage_limit,
    stopped_task_snapshots, LiveTask, RecoveryVerdict, TaskAction, TaskEvent, TaskRun,
    WaitingTask,
};
use funzzy::task_result::{TaskSnapshot, TaskState};

fn task(commands: &[&str]) -> TaskRun {
    TaskRun::new(
        "lint".to_owned(),
        commands.iter().map(|c| c.to_string()).collect(),
        false,
        false,
    )
}

#[test]
fn commands_run_in_order_and_the_task_finishes() {
    let mut t = task(&["cargo fmt", "cargo clippy"]);
    let mut results = vec![];
    assert_eq!(t.current_action(), TaskAction::Spawn("cargo fmt".to_owned()));
    assert_eq!(t.step(TaskEvent::Spawned, true, &mut results), TaskAction::Poll);
    assert_eq!(t.step(TaskEvent::StillRunning, true, &mut results), TaskAction::Poll);
    assert_eq!(
        t.step(TaskEvent::Exited { success: true, status: "exit status: 0".to_owned() }, true, &mut results),
        TaskAction::Spawn("cargo clippy".to_owned())
    );
    assert_eq!(t.step(TaskEvent::Spawned, true, &mut results), TaskAction::Poll);
    assert_eq!(
        t.step(TaskEvent::Exited { success: true, status: "exit status: 0".to_owned() }, true, &mut results),
        TaskAction::Finished
    );
    assert_eq!(results, vec![Ok(()), Ok(())]);
    assert_eq!(t.terminal_state(), TaskState::Passed);
    assert_eq!(t.outcome(), TaskOutcome::Passed);
}

#[test]
fn fail_fast_stops_at_the_first_failing_command() {
    let mut t = task(&["false", "echo never"]);
    let mut results = vec![];
    t.step(TaskEvent::Spawned, true, &mut results);
    let action = t.step(
        TaskEvent::Exited { success: false, status: "exit status: 1".to_owned() },
        true,
        &mut results,
    );
    assert_eq!(action, TaskAction::FailedFast);
    assert_eq!(results, vec![Err("Command false has failed with exit status: 1".to_owned())]);
    assert_eq!(t.failures, vec!["Command false has failed with exit status: 1".to_owned()]);
    assert_eq!(t.terminal_state(), TaskState::Failed);
}

#[test]
fn without_fail_fast_later_commands_still_run() {
    let mut t = task(&["false", "echo after"]);
    let mut results = vec![];
    t.step(TaskEvent::Spawned, false, &mut results);
    let action = t.step(
        TaskEvent::Exited { success: false, status: "exit status: 1".to_owned() },
        false,
        &mut results,
    );
    assert_eq!(action, TaskAction::Spawn("echo after".to_owned()));
}

#[test]
fn spawn_and_wait_failures_are_reported() {
    let mut t = task(&["missing-tool", "echo two"]);
    let mut results = vec![];
    let action = t.step(TaskEvent::SpawnFailed { error: "No such file".to_owned() }, false, &mut results);
    assert_eq!(action, TaskAction::Spawn("echo two".to_owned()));
    t.step(TaskEvent::Spawned, false, &mut results);
    let action = t.step(TaskEvent::WaitErrored { error: "interrupted".to_owned() }, false, &mut results);
    assert_eq!(action, TaskAction::Finished);
    assert_eq!(
        results,
        vec![
            Err("Command missing-tool failed to start: No such file".to_owned()),
            Err("Command echo two has errored with interrupted".to_owned()),
        ]
    );
}

#[test]
fn missing_cwd_fails_the_task_without_running_it() {
    let mut t = task(&["make"]);
    let mut results = vec![];
    let action = t.step(TaskEvent::CwdMissing { cwd: "/gone".to_owned() }, false, &mut results);
    assert_eq!(action, TaskAction::Finished);
    assert!(t.pending.is_empty());
    assert_eq!(
        results,
        vec![Err("Task 'lint' cwd is missing or not a directory: /gone".to_owned())]
    );
}

#[test]
fn deadline_times_the_task_out_and_never_offers_recovery() {
    let mut t = TaskRun::new("slow".to_owned(), vec!["sleep 9".to_owned(), "echo".to_owned()], true, false);
    let mut results = vec![];
    t.step(TaskEvent::Spawned, false, &mut results);
    let action = t.step(
        TaskEvent::DeadlineReached { elapsed_ms: 1500, elapsed_text: "1.5s".to_owned() },
        false,
        &mut results,
    );
    assert_eq!(action, TaskAction::TimedOut);
    assert_eq!(results, vec![Err("Job 'slow' timed out after 1500ms and was terminated".to_owned())]);
    assert_eq!(t.failures, vec!["job 'slow' timed out after 1.5s and was terminated".to_owned()]);
    assert!(t.pending.is_empty());
    assert!(!t.awaits_recovery());
    assert_eq!(t.terminal_state(), TaskState::TimedOut);
}

#[test]
fn deferred_failures_wait_for_recovery() {
    let mut t = TaskRun::new("fix".to_owned(), vec!["check".to_owned()], true, false);
    let mut results = vec![];
    t.step(TaskEvent::Spawned, true, &mut results);
    let action = t.step(
        TaskEvent::Exited { success: false, status: "exit status: 2".to_owned() },
        true,
        &mut results,
    );
    assert_eq!(action, TaskAction::FailedFast);
    assert!(results.is_empty());
    assert!(t.awaits_recovery());
    assert_eq!(t.unrecovered_result(), "Command check has failed with exit status: 2");
}

#[test]
fn services_restart_within_their_bound() {
    let mut t = TaskRun::new("server".to_owned(), vec!["serve".to_owned()], false, true);
    let mut results = vec![];
    for left in [2, 1, 0] {
        t.step(TaskEvent::Spawned, false, &mut results);
        let action = t.step(
            TaskEvent::Exited { success: false, status: "exit status: 1".to_owned() },
            false,
            &mut results,
        );
        assert_eq!(
            action,
            TaskAction::Restart {
                warning: format!("service 'server' exited with exit status: 1; restarting ({left} left)"),
            }
        );
        assert_eq!(t.pending, vec!["serve".to_owned()]);
    }
    t.step(TaskEvent::Spawned, false, &mut results);
    let action = t.step(
        TaskEvent::Exited { success: false, status: "exit status: 1".to_owned() },
        false,
        &mut results,
    );
    assert_eq!(action, TaskAction::Finished);
    assert_eq!(results, vec![Err("Service server has failed after 3 restarts".to_owned())]);
}

#[test]
fn stage_limits_follow_the_override_and_the_group_size() {
    assert_eq!(stage_limit(false, 5, None, 4), 1);
    assert_eq!(stage_limit(true, 5, None, 4), 4);
    assert_eq!(stage_limit(true, 2, None, 4), 2);
    assert_eq!(stage_limit(true, 5, Some(1), 4), 1);
}

#[test]
fn stopping_a_generation_cancels_live_and_skips_waiting_work() {
    let live = vec![LiveTask {
        position: 1,
        name: "unit".to_owned(),
        group_occurrence: Some("checks#1".to_owned()),
        duration_ms: Some(40),
        escalated: false,
    }];
    let waiting = vec![WaitingTask { position: 3, name: "deploy".to_owned(), group_occurrence: None }];
    assert_eq!(
        stopped_task_snapshots(&live, &waiting),
        vec![
            TaskSnapshot {
                position: 1,
                id: "checks#1".to_owned(),
                name: "unit".to_owned(),
                state: TaskState::Cancelled,
                duration_ms: Some(40),
            },
            TaskSnapshot {
                position: 3,
                id: "deploy".to_owned(),
                name: "deploy".to_owned(),
                state: TaskState::Cancelled,
                duration_ms: None,
            },
        ]
    );
    assert_eq!(
        fail_fast_outcomes(&live, &waiting),
        vec![
            (1, "unit".to_owned(), Some("checks#1".to_owned()), TaskOutcome::Cancelled),
            (3, "deploy".to_owned(), None, TaskOutcome::Skipped),
        ]
    );
    assert_eq!(cancel_disposition(&live), CancelDisposition::Graceful);
    let mut killed = live.clone();
    killed[0].escalated = true;
    assert_eq!(cancel_disposition(&killed), CancelDisposition::Escalated);
}

#[test]
fn recovery_verdicts_and_reasons() {
    assert_eq!(recovery_verdict(false, ApprovalDecision::Approved, false), RecoveryVerdict::Run);
    assert_eq!(recovery_verdict(false, ApprovalDecision::Cancelled, false), RecoveryVerdict::Preserve);
    assert_eq!(recovery_verdict(false, ApprovalDecision::Approved, true), RecoveryVerdict::Preserve);
    assert_eq!(
        recovery_verdict(true, ApprovalDecision::Declined, false),
        RecoveryVerdict::NotRun("recovery_policy: skip".to_owned())
    );
    assert_eq!(
        recovery_verdict(false, ApprovalDecision::TimedOut, false),
        RecoveryVerdict::NotRun("approval timeout".to_owned())
    );
    assert_eq!(
        recovery_verdict(false, ApprovalDecision::NoTty, false),
        RecoveryVerdict::NotRun("no TTY".to_owned())
    );
    assert_eq!(
        not_run_warning(&vec!["a".to_owned(), "b".to_owned()], "declined"),
        "Recovery for job(s) a, b was not run: declined"
    );
}

#[test]
fn failed_recovery_keeps_original_failures_first() {
    let mut t = TaskRun::new("fix".to_owned(), vec![], true, false);
    t.rerun(vec!["repair".to_owned()]);
    let mut results = vec![];
    t.step(TaskEvent::Spawned, true, &mut results);
    t.step(TaskEvent::Exited { success: false, status: "exit status: 3".to_owned() }, true, &mut results);
    let last = t.finish_recovery(vec!["original".to_owned()]);
    assert_eq!(last.as_deref(), Some("Command repair has failed with exit status: 3"));
    assert_eq!(
        t.failures,
        vec!["original".to_owned(), "Command repair has failed with exit status: 3".to_owned()]
    );
    assert_eq!(
        t.verification_result(),
        Err("Command repair has failed with exit status: 3".to_owned())
    );
}

use funzzy::task_machine::StageQueue;

#[test]
fn parallel_stage_overlaps_only_up_to_the_configured_bound() {
    let mut queue = StageQueue::new(vec![(true, vec![0, 1, 2]), (false, vec![3])]);
    assert_eq!(queue.start_ready(2, None), vec![0, 1]);
    assert_eq!(queue.queued, vec![2]);
    assert_eq!(queue.start_ready(2, None), Vec::<usize>::new());
    assert!(queue.release(0));
    assert_eq!(queue.start_ready(2, None), vec![2]);
    assert!(queue.release(1));
    assert!(queue.release(2));
    assert_eq!(queue.start_ready(2, None), vec![3]);
    assert_eq!(queue.stage_limit, 1);
    assert!(queue.release(3));
    assert!(!queue.release(3));
    assert!(queue.is_exhausted());
}

#[test]
fn barrier_and_sequential_override_are_preserved() {
    let mut queue = StageQueue::new(vec![(true, vec![0, 1]), (true, vec![2, 3])]);
    assert_eq!(queue.start_ready(4, Some(1)), vec![0]);
    assert!(queue.release(0));
    assert_eq!(queue.start_ready(4, Some(1)), vec![1]);
    let (live, waiting) = queue.drain();
    assert_eq!(live, vec![1]);
    assert_eq!(waiting, vec![2, 3]);
    assert!(queue.is_exhausted());
}

use funzzy::task_machine::{after_task, GenerationMove};

#[test]
fn generation_moves_follow_the_task_action() {
    let mut t = TaskRun::new("fix".to_owned(), vec!["check".to_owned()], true, false);
    let mut results = vec![];
    t.step(TaskEvent::Spawned, false, &mut results);
    assert_eq!(after_task(&TaskAction::Poll, &t, false), GenerationMove::KeepPolling);
    let action = t.step(
        TaskEvent::Exited { success: false, status: "exit status: 1".to_owned() },
        false,
        &mut results,
    );
    assert_eq!(action, TaskAction::Finished);
    assert_eq!(after_task(&action, &t, false), GenerationMove::AwaitRecovery);
    assert_eq!(
        after_task(&TaskAction::FailedFast, &t, true),
        GenerationMove::Stop { held_for_recovery: true }
    );
    let plain = task(&["ok"]);
    assert_eq!(after_task(&TaskAction::Finished, &plain, false), GenerationMove::Record);
    assert_eq!(after_task(&TaskAction::TimedOut, &plain, false), GenerationMove::Record);
    assert_eq!(
        after_task(&TaskAction::TimedOut, &plain, true),
        GenerationMove::Stop { held_for_recovery: false }
    );
    let mut service = TaskRun::new("server".to_owned(), vec!["serve".to_owned()], false, true);
    service.step(TaskEvent::Spawned, false, &mut results);
    assert_eq!(after_task(&TaskAction::Poll, &service, false), GenerationMove::ToBackground);
}

use funzzy::executor::PendingSettledHook;
use funzzy::task_machine::{hook_decision, hook_warning, GenerationHooks, HookDecision};

#[test]
fn terminal_hooks_run_now_or_settle_after_failure() {
    let hooks = GenerationHooks {
        success: Some("notify ok".to_owned()),
        failure: Some("notify fail".to_owned()),
        failure_settle_ms: None,
    };
    assert_eq!(
        hook_decision(true, &hooks, 3, None, &None),
        HookDecision::RunNow { label: "success".to_owned(), command: "notify ok".to_owned() }
    );
    assert_eq!(
        hook_decision(false, &hooks, 3, None, &None),
        HookDecision::RunNow { label: "failure".to_owned(), command: "notify fail".to_owned() }
    );
    let settled = GenerationHooks { failure_settle_ms: Some(250), ..hooks.clone() };
    assert_eq!(
        hook_decision(false, &settled, 3, Some(2), &Some("abc".to_owned())),
        HookDecision::Settle(PendingSettledHook {
            run_id: 3,
            command: "notify fail".to_owned(),
            settle_ms: 250,
            revision: 2,
            revision_hash: "abc".to_owned(),
        })
    );
    assert_eq!(hook_decision(true, &GenerationHooks::default(), 3, None, &None), HookDecision::NoHook);
    assert_eq!(
        hook_warning("failure", 3, &Ok("exit status: 1".to_owned())),
        "failure hook for generation 3 failed with exit status: 1"
    );
    assert_eq!(
        hook_warning("success", 4, &Err("hook wait failed: gone".to_owned())),
        "success hook for generation 4 errored: hook wait failed: gone"
    );
}

#[test]
fn services_stop_quietly_ignore_wait_errors_and_report_respawn_failures() {
    let mut results = vec![];
    let mut quiet = TaskRun::new("server".to_owned(), vec!["serve".to_owned()], false, true);
    quiet.step(TaskEvent::Spawned, false, &mut results);
    assert_eq!(
        quiet.step(TaskEvent::WaitErrored { error: "interrupted".to_owned() }, false, &mut results),
        TaskAction::Poll
    );
    assert_eq!(quiet.running.as_deref(), Some("serve"));
    assert_eq!(
        quiet.step(TaskEvent::Exited { success: true, status: "exit status: 0".to_owned() }, false, &mut results),
        TaskAction::Finished
    );
    assert!(results.is_empty());
    assert_eq!(quiet.terminal_state(), TaskState::Passed);

    let mut flaky = TaskRun::new("server".to_owned(), vec!["serve".to_owned()], false, true);
    flaky.step(TaskEvent::Spawned, true, &mut results);
    flaky.step(TaskEvent::Exited { success: false, status: "exit status: 1".to_owned() }, true, &mut results);
    assert_eq!(
        flaky.step(TaskEvent::SpawnFailed { error: "No such file".to_owned() }, true, &mut results),
        TaskAction::Finished
    );
    assert_eq!(results, vec![Err("Service server respawn failed: No such file".to_owned())]);
    assert_eq!(flaky.terminal_state(), TaskState::Failed);
}
