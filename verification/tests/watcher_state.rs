use funzzy::executor::{Event, TaskSnapshot, TaskState};
use funzzy::watcher_state::{WatcherExecutionState, WatcherState};

fn started(run_id: u64, batch: Option<u64>, predecessor: Option<u64>) -> Event {
    Event::Started {
        run_id,
        trigger: "src/main.rs".to_owned(),
        batch,
        predecessor,
        changed: vec!["src/main.rs".to_owned()],
        commands: vec!["echo hi".to_owned()],
        target: None,
        effective_concurrency: None,
        concurrency_source: None,
        revision: Some(3),
        revision_hash: Some("abc123".to_owned()),
    }
}

fn snapshot(position: usize, name: &str, duration_ms: Option<u64>) -> TaskSnapshot {
    TaskSnapshot {
        position,
        id: name.to_owned(),
        name: name.to_owned(),
        state: TaskState::Passed,
        duration_ms,
    }
}

#[test]
fn started_sets_all_correlation_fields_coherently() {
    let mut state = WatcherState::default();
    state.apply(started(42, Some(7), Some(41)));

    assert_eq!(state.generation(), 42);
    assert_eq!(state.state(), &WatcherExecutionState::Running);
    assert_eq!(state.trigger(), Some("src/main.rs"));
    assert_eq!(state.batch(), Some(7));
    assert_eq!(state.changed(), ["src/main.rs"]);
    assert_eq!(state.predecessor(), Some(41));
    assert_eq!(state.superseded_by(), None);
    assert_eq!(state.duration_ms(), None);
    assert!(state.failures().is_empty());
    assert_eq!(state.revision(), Some(3));
    assert_eq!(state.revision_hash(), Some("abc123"));
}

#[test]
fn finished_records_terminal_state_and_superseded_relation() {
    let mut state = WatcherState::default();
    state.apply(started(42, None, None));
    state.apply(Event::Finished {
        run_id: 42,
        superseded_by: Some(43),
        elapsed_ms: 9,
        failures: vec!["boom".to_owned()],
    });

    assert_eq!(state.state(), &WatcherExecutionState::Failed);
    assert_eq!(state.duration_ms(), Some(9));
    assert_eq!(state.failures(), ["boom"]);
    assert_eq!(state.superseded_by(), Some(43));
    assert_eq!(state.generation(), 42);
    assert_eq!(state.revision(), Some(3));
    assert_eq!(state.revision_hash(), Some("abc123"));
}

#[test]
fn cancelled_records_generation_and_superseded_by() {
    let mut state = WatcherState::default();
    state.apply(started(1, None, None));
    state.apply(Event::Cancelled {
        run_id: 1,
        superseded_by: Some(2),
    });

    assert_eq!(state.state(), &WatcherExecutionState::Cancelled);
    assert_eq!(state.superseded_by(), Some(2));
    assert_eq!(state.duration_ms(), None);
    assert_eq!(state.generation(), 1);
}

#[test]
fn replacement_transition_keeps_latest_generation_consistent() {
    let mut state = WatcherState::default();
    state.apply(started(1, None, None));
    state.apply(Event::Cancelled {
        run_id: 1,
        superseded_by: Some(2),
    });
    state.apply(started(2, Some(5), Some(1)));

    assert_eq!(state.generation(), 2);
    assert_eq!(state.batch(), Some(5));
    assert_eq!(state.predecessor(), Some(1));
    assert_eq!(state.superseded_by(), None);
    assert_eq!(state.state(), &WatcherExecutionState::Running);
}

#[test]
fn task_snapshots_sort_by_executor_declaration_position() {
    let mut state = WatcherState::default();
    state.apply(started(1, None, None));
    for (position, name) in [(1, "second"), (0, "first")] {
        state.apply(Event::TaskTerminal {
            run_id: 1,
            task: TaskSnapshot {
                position,
                id: name.to_owned(),
                name: name.to_owned(),
                state: TaskState::Passed,
                duration_ms: Some(42),
            },
        });
    }

    assert_eq!(
        state
            .tasks()
            .iter()
            .map(|task| task.name.as_str())
            .collect::<Vec<_>>(),
        ["first", "second"]
    );
}

#[test]
fn finished_without_failures_passes() {
    let mut state = WatcherState::new();
    assert_eq!(state.state(), &WatcherExecutionState::Idle);
    assert!(!state.is_running());
    state.apply(started(3, None, None));
    assert!(state.is_running());
    state.apply(Event::Finished {
        run_id: 3,
        superseded_by: None,
        elapsed_ms: 120,
        failures: vec![],
    });
    assert_eq!(state.state(), &WatcherExecutionState::Passed);
    assert_eq!(state.duration_ms(), Some(120));
    assert!(!state.is_running());
}

#[test]
fn task_outcomes_of_another_generation_are_ignored() {
    let mut state = WatcherState::default();
    state.apply(started(5, None, None));
    state.apply(Event::TaskTerminal { run_id: 4, task: snapshot(0, "stale", None) });
    assert!(state.tasks().is_empty());
    state.apply(Event::TaskTerminal { run_id: 5, task: snapshot(2, "c", None) });
    state.apply(Event::TaskTerminal { run_id: 5, task: snapshot(0, "a", Some(1)) });
    state.apply(Event::TaskTerminal { run_id: 5, task: snapshot(2, "d", None) });
    state.apply(Event::TaskTerminal { run_id: 5, task: snapshot(1, "b", None) });
    let names: Vec<&str> = state.tasks().iter().map(|t| t.name.as_str()).collect();
    assert_eq!(names, ["a", "b", "c", "d"]);
}

#[test]
fn a_new_start_clears_previous_outcomes() {
    let mut state = WatcherState::default();
    state.apply(started(1, None, None));
    state.apply(Event::TaskTerminal { run_id: 1, task: snapshot(0, "a", None) });
    state.apply(Event::Finished {
        run_id: 1,
        superseded_by: None,
        elapsed_ms: 5,
        failures: vec!["a".to_owned()],
    });
    state.apply(started(2, None, Some(1)));
    assert!(state.tasks().is_empty());
    assert!(state.failures().is_empty());
    assert_eq!(state.duration_ms(), None);
    assert_eq!(state.commands(), ["echo hi"]);
    assert_eq!(state.effective_concurrency(), None);
    assert_eq!(state.concurrency_source(), None);
}
