use funzzy::event_stream::{event_record, RecordValue, EVENT_SCHEMA_VERSION};
use funzzy::executor::{Event, TaskSnapshot, TaskState};

fn field<'a>(record: &'a [(&'static str, RecordValue)], key: &str) -> &'a RecordValue {
    &record.iter().find(|(k, _)| *k == key).expect("field present").1
}

fn text(s: &str) -> RecordValue {
    RecordValue::Text(s.to_owned())
}

#[test]
fn started_record_carries_schema_kind_and_identity() {
    let record = event_record(
        &Event::Started {
            run_id: 7,
            trigger: "src/main.rs".to_owned(),
            batch: Some(3),
            predecessor: None,
            changed: vec!["src/main.rs".to_owned()],
            commands: vec!["cargo test".to_owned()],
            target: Some("tests".to_owned()),
            effective_concurrency: Some(2),
            concurrency_source: Some("config"),
            revision: None,
            revision_hash: None,
        },
        1000,
    );
    assert_eq!(EVENT_SCHEMA_VERSION, 1);
    assert_eq!(field(&record, "schemaVersion"), &RecordValue::Number(1));
    assert_eq!(field(&record, "event"), &text("started"));
    assert_eq!(field(&record, "runId"), &RecordValue::Number(7));
    assert_eq!(field(&record, "tsMs"), &RecordValue::Number(1000));
    assert_eq!(field(&record, "batch"), &RecordValue::Number(3));
    assert_eq!(field(&record, "predecessor"), &RecordValue::Null);
    assert_eq!(field(&record, "target"), &text("tests"));
    assert_eq!(field(&record, "effectiveConcurrency"), &RecordValue::Number(2));
    assert_eq!(field(&record, "concurrencySource"), &text("config"));
    assert_eq!(
        field(&record, "changed"),
        &RecordValue::TextList(vec!["src/main.rs".to_owned()])
    );
    assert_eq!(record.len(), 12);
}

#[test]
fn finished_record_keeps_failures_in_order() {
    let record = event_record(
        &Event::Finished {
            run_id: 7,
            superseded_by: None,
            elapsed_ms: 42,
            failures: vec!["b: boom".to_owned(), "a: crash".to_owned()],
        },
        5,
    );
    assert_eq!(field(&record, "event"), &text("finished"));
    assert_eq!(field(&record, "elapsedMs"), &RecordValue::Number(42));
    assert_eq!(
        field(&record, "failures"),
        &RecordValue::TextList(vec!["b: boom".to_owned(), "a: crash".to_owned()])
    );
    assert_eq!(field(&record, "supersededBy"), &RecordValue::Null);
}

#[test]
fn task_terminal_carries_task_and_group_identity() {
    let record = event_record(
        &Event::TaskTerminal {
            run_id: 7,
            task: TaskSnapshot {
                position: 0,
                id: "checks#1".to_owned(),
                name: "test @quick".to_owned(),
                state: TaskState::Passed,
                duration_ms: Some(120),
            },
        },
        0,
    );
    assert_eq!(field(&record, "event"), &text("task_terminal"));
    assert_eq!(field(&record, "runId"), &RecordValue::Number(7));
    assert_eq!(field(&record, "task"), &text("test @quick"));
    assert_eq!(field(&record, "group"), &text("checks#1"));
    assert_eq!(field(&record, "state"), &text("passed"));
    assert_eq!(field(&record, "durationMs"), &RecordValue::Number(120));
}

#[test]
fn task_terminal_reports_a_timed_out_task() {
    let record = event_record(
        &Event::TaskTerminal {
            run_id: 9,
            task: TaskSnapshot {
                position: 0,
                id: "checks#1".to_owned(),
                name: "lint".to_owned(),
                state: TaskState::TimedOut,
                duration_ms: Some(12),
            },
        },
        0,
    );
    assert_eq!(field(&record, "runId"), &RecordValue::Number(9));
    assert_eq!(field(&record, "task"), &text("lint"));
    assert_eq!(field(&record, "state"), &text("timedout"));
    assert_eq!(field(&record, "durationMs"), &RecordValue::Number(12));
}

#[test]
fn cancelled_tick_and_recovery_records() {
    let cancelled = event_record(&Event::Cancelled { run_id: 3, superseded_by: Some(4) }, 0);
    assert_eq!(field(&cancelled, "event"), &text("cancelled"));
    assert_eq!(field(&cancelled, "supersededBy"), &RecordValue::Number(4));

    let tick = event_record(
        &Event::Tick {
            task: "build".to_owned(),
            group_occurrence: None,
        },
        0,
    );
    assert_eq!(field(&tick, "runId"), &RecordValue::Null);
    assert_eq!(field(&tick, "group"), &RecordValue::Null);

    let phase = event_record(
        &Event::RecoveryPhase {
            run_id: 2,
            job: "fix".to_owned(),
            phase: "approval".to_owned(),
            outcome: Some("approved".to_owned()),
        },
        0,
    );
    assert_eq!(field(&phase, "event"), &text("recovery_phase"));
    assert_eq!(field(&phase, "outcome"), &text("approved"));
}
