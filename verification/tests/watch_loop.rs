use funzzy::plan::RunPlan;
use funzzy::rules::Rules;
use funzzy::watch_loop::{init_action, InitAction, ModificationGate};

fn rule(name: &str) -> Rules {
    Rules::new(
        name.to_owned(),
        vec!["echo hi".to_owned()],
        vec!["src/**".to_owned()],
        vec![],
        false,
    )
}

#[test]
fn it_runs_init_rules_when_flag_is_enabled_and_rules_exist() {
    assert!(matches!(
        init_action(Some(RunPlan::from_rules(vec![rule("build")])), true),
        InitAction::Run(_)
    ));
}

#[test]
fn it_waits_when_run_on_init_flag_is_disabled() {
    assert!(matches!(
        init_action(Some(RunPlan::from_rules(vec![rule("build")])), false),
        InitAction::Wait
    ));
}

#[test]
fn it_waits_when_no_init_rules_exist() {
    assert!(matches!(init_action(None, true), InitAction::Wait));
    assert!(matches!(init_action(None, false), InitAction::Wait));
}

#[test]
fn redelivered_untouched_path_is_filtered() {
    let mut gate = ModificationGate::new();
    let first = gate.changed(vec![("/w/a.rs".to_owned(), Some(10))]);
    assert_eq!(first.len(), 1, "first sighting routes");
    let second = gate.changed(vec![("/w/a.rs".to_owned(), Some(10))]);
    assert!(second.is_empty(), "re-delivery without a write is chatter");
}

#[test]
fn rewritten_path_routes_again() {
    let mut gate = ModificationGate::new();
    gate.changed(vec![("/w/a.rs".to_owned(), Some(10))]);
    let second = gate.changed(vec![("/w/a.rs".to_owned(), Some(11))]);
    assert_eq!(second, vec!["/w/a.rs".to_owned()], "a real rewrite routes");
}

#[test]
fn deletion_is_quiet_but_recreation_routes() {
    let mut gate = ModificationGate::new();
    gate.changed(vec![("/w/a.rs".to_owned(), Some(10))]);
    assert!(gate.changed(vec![("/w/a.rs".to_owned(), None)]).is_empty());
    assert_eq!(gate.changed(vec![("/w/a.rs".to_owned(), Some(10))]).len(), 1);
    assert!(gate.changed(vec![("/w/a.rs".to_owned(), Some(10))]).is_empty());
}

#[test]
fn seeded_baseline_is_not_a_first_sighting() {
    let mut gate = ModificationGate::new();
    gate.seed(vec![("/w/old.rs".to_owned(), Some(5)), ("/w/old.rs".to_owned(), Some(9))]);
    let routed = gate.changed(vec![
        ("/w/old.rs".to_owned(), Some(5)),
        ("/w/new.rs".to_owned(), Some(6)),
        ("/w/new.rs".to_owned(), Some(6)),
    ]);
    assert_eq!(routed, vec!["/w/new.rs".to_owned()]);
}

use funzzy::identity::BatchId;
use funzzy::shortcut::KeyDecode;
use funzzy::watch_loop::{
    gated_batch, ManualOutcome, ManualTrigger, ManualTriggerPhase, ShortcutAction, ShortcutEvent,
};

#[test]
fn gated_batch_routes_only_changed_paths_normalized() {
    let mut gate = ModificationGate::new();
    let first = gated_batch(
        &mut gate,
        BatchId(1),
        vec![("b.rs".to_owned(), Some(5)), ("a.rs".to_owned(), Some(7))],
    )
    .expect("new files route");
    assert_eq!(first.id, BatchId(1));
    assert_eq!(first.changed, vec!["a.rs".to_owned(), "b.rs".to_owned()]);
    assert!(gated_batch(&mut gate, BatchId(2), vec![("a.rs".to_owned(), Some(7))]).is_none());
    let again = gated_batch(&mut gate, BatchId(3), vec![("a.rs".to_owned(), Some(8))]).unwrap();
    assert_eq!(again.changed, vec!["a.rs".to_owned()]);
}

#[test]
fn shortcut_runs_once_and_waits_for_a_running_generation() {
    let mut trigger = ManualTrigger::new();
    assert_eq!(
        trigger.step(ShortcutEvent::Key { key: KeyDecode::Trigger, running: true }),
        ShortcutAction::Inform("Shortcut latched; waiting for the current run to finish.".to_owned())
    );
    assert_eq!(trigger.phase, ManualTriggerPhase::Waiting);
    assert_eq!(
        trigger.step(ShortcutEvent::Key { key: KeyDecode::Trigger, running: true }),
        ShortcutAction::Inform(
            "Shortcut already latched; waiting for the current run to finish.".to_owned()
        )
    );
    assert_eq!(
        trigger.step(ShortcutEvent::Tick { running: true, active_complete: false }),
        ShortcutAction::Nothing
    );
    assert_eq!(
        trigger.step(ShortcutEvent::Tick { running: false, active_complete: false }),
        ShortcutAction::RunManual
    );
    assert_eq!(trigger.manual_outcome(ManualOutcome::Started(Some(12))), None);
    assert_eq!(trigger.phase, ManualTriggerPhase::Active(12));
    assert_eq!(
        trigger.step(ShortcutEvent::Tick { running: false, active_complete: true }),
        ShortcutAction::Nothing
    );
    assert_eq!(trigger.phase, ManualTriggerPhase::Idle);
    assert!(!trigger.latch.is_pending());
}

#[test]
fn shortcut_without_jobs_is_ignored_and_released() {
    let mut trigger = ManualTrigger::new();
    assert_eq!(
        trigger.step(ShortcutEvent::Key { key: KeyDecode::Trigger, running: false }),
        ShortcutAction::RunManual
    );
    assert_eq!(
        trigger.manual_outcome(ManualOutcome::NoPlan),
        Some("Shortcut ignored: no configured jobs to run.".to_owned())
    );
    assert_eq!(trigger.phase, ManualTriggerPhase::Idle);
    assert!(!trigger.latch.is_pending());
    assert_eq!(
        trigger.step(ShortcutEvent::Key { key: KeyDecode::Eof, running: false }),
        ShortcutAction::Nothing
    );
}
