//! The run-event record: each executor event as one flat record of the
//! NDJSON event stream (schema version, kind, run identity and the fields
//! of its kind). Encoding the record as JSON and appending the line to the
//! stream file are done by the caller.
use vstd::prelude::*;

use crate::executor::Event;
use crate::stdout::{lemma_labels_distinct, state_label};
use crate::task_result::{TaskSnapshot, TaskState};
use crate::text::views;

verus! {

/// Schema version of the event records.
pub const EVENT_SCHEMA_VERSION: u64 = 1;

/// One value of a record.
#[derive(Clone, Debug, PartialEq, Eq)]
pub enum RecordValue {
    Null,
    Number(u64),
    Text(String),
    TextList(Vec<String>),
}

/// The mathematical value of a `RecordValue`.
pub enum RecordValueView {
    Null,
    Number(u64),
    Text(Seq<char>),
    TextList(Seq<Seq<char>>),
}

impl View for RecordValue {
    type V = RecordValueView;

    open spec fn view(&self) -> RecordValueView {
        match self {
            RecordValue::Null => RecordValueView::Null,
            RecordValue::Number(n) => RecordValueView::Number(*n),
            RecordValue::Text(s) => RecordValueView::Text(s@),
            RecordValue::TextList(v) => RecordValueView::TextList(views(v@)),
        }
    }
}

/// The fields of a record, in order.
pub open spec fn record_view(r: Seq<(&'static str, RecordValue)>) -> Seq<(Seq<char>, RecordValueView)> {
    r.map_values(|f: (&'static str, RecordValue)| (f.0@, f.1@))
}

pub open spec fn num_or_null(o: Option<u64>) -> RecordValueView {
    match o {
        Some(n) => RecordValueView::Number(n),
        None => RecordValueView::Null,
    }
}

pub open spec fn text_or_null(o: Option<Seq<char>>) -> RecordValueView {
    match o {
        Some(s) => RecordValueView::Text(s),
        None => RecordValueView::Null,
    }
}

pub open spec fn opt_string_view(o: Option<String>) -> Option<Seq<char>> {
    match o {
        Some(s) => Some(s@),
        None => None,
    }
}

pub open spec fn opt_str_view(o: Option<&'static str>) -> Option<Seq<char>> {
    match o {
        Some(s) => Some(s@),
        None => None,
    }
}

pub open spec fn opt_usize(o: Option<usize>) -> Option<u64> {
    match o {
        Some(n) => Some(n as u64),
        None => None,
    }
}

/// The wire name of a task state.
pub open spec fn state_name(s: TaskState) -> Seq<char> {
    match s {
        TaskState::Passed => "passed"@,
        TaskState::Failed => "failed"@,
        TaskState::Cancelled => "cancelled"@,
        TaskState::TimedOut => "timedout"@,
    }
}

/// The record of one event at time `ts_ms`: schema version, kind, run
/// identity and time, then the fields of the kind.
pub open spec fn event_record_spec(event: Event, ts_ms: u64) -> Seq<(Seq<char>, RecordValueView)> {
    let head = |kind: Seq<char>, run: RecordValueView|
        seq![
            ("schemaVersion"@, RecordValueView::Number(EVENT_SCHEMA_VERSION)),
            ("event"@, RecordValueView::Text(kind)),
            ("runId"@, run),
            ("tsMs"@, RecordValueView::Number(ts_ms)),
        ];
    match event {
        Event::Started {
            run_id,
            trigger,
            batch,
            predecessor,
            changed,
            commands,
            target,
            effective_concurrency,
            concurrency_source,
            ..
        } => head("started"@, RecordValueView::Number(run_id)) + seq![
            ("trigger"@, RecordValueView::Text(trigger@)),
            ("batch"@, num_or_null(batch)),
            ("predecessor"@, num_or_null(predecessor)),
            ("changed"@, RecordValueView::TextList(views(changed@))),
            ("commands"@, RecordValueView::TextList(views(commands@))),
            ("target"@, text_or_null(opt_string_view(target))),
            ("effectiveConcurrency"@, num_or_null(opt_usize(effective_concurrency))),
            ("concurrencySource"@, text_or_null(opt_str_view(concurrency_source))),
        ],
        Event::Tick { task, group_occurrence } => head("tick"@, RecordValueView::Null) + seq![
            ("task"@, RecordValueView::Text(task@)),
            ("group"@, text_or_null(opt_string_view(group_occurrence))),
        ],
        Event::TaskTerminal { run_id, task } => head("task_terminal"@, RecordValueView::Number(run_id))
            + seq![
            ("task"@, RecordValueView::Text(task.name@)),
            ("group"@, RecordValueView::Text(task.id@)),
            ("state"@, RecordValueView::Text(state_name(task.state))),
            ("durationMs"@, num_or_null(task.duration_ms)),
        ],
        Event::Finished { run_id, superseded_by, elapsed_ms, failures } => head(
            "finished"@,
            RecordValueView::Number(run_id),
        ) + seq![
            ("elapsedMs"@, RecordValueView::Number(elapsed_ms)),
            ("failures"@, RecordValueView::TextList(views(failures@))),
            ("supersededBy"@, num_or_null(superseded_by)),
        ],
        Event::Cancelled { run_id, superseded_by } => head("cancelled"@, RecordValueView::Number(run_id))
            + seq![("supersededBy"@, num_or_null(superseded_by))],
        Event::RecoveryPhase { run_id, job, phase, outcome } => head(
            "recovery_phase"@,
            RecordValueView::Number(run_id),
        ) + seq![
            ("job"@, RecordValueView::Text(job@)),
            ("phase"@, RecordValueView::Text(phase@)),
            ("outcome"@, text_or_null(opt_string_view(outcome))),
        ],
    }
}

fn num_value(o: Option<u64>) -> (r: RecordValue)
    ensures
        r@ == num_or_null(o),
{
    match o {
        Some(n) => RecordValue::Number(n),
        None => RecordValue::Null,
    }
}

fn text_value(o: &Option<String>) -> (r: RecordValue)
    ensures
        r@ == text_or_null(opt_string_view(*o)),
{
    match o {
        Some(s) => RecordValue::Text(s.clone()),
        None => RecordValue::Null,
    }
}

fn list_value(v: &Vec<String>) -> (r: RecordValue)
    ensures
        r@ == RecordValueView::TextList(views(v@)),
{
    RecordValue::TextList(crate::text::clone_strings(v))
}

fn head(kind: &'static str, run: RecordValue, ts_ms: u64) -> (r: Vec<(&'static str, RecordValue)>)
    ensures
        record_view(r@) == seq![
            ("schemaVersion"@, RecordValueView::Number(EVENT_SCHEMA_VERSION)),
            ("event"@, RecordValueView::Text(kind@)),
            ("runId"@, run@),
            ("tsMs"@, RecordValueView::Number(ts_ms)),
        ],
{
    let r = vec![
        ("schemaVersion", RecordValue::Number(EVENT_SCHEMA_VERSION)),
        ("event", RecordValue::Text(crate::text::owned(kind))),
        ("runId", run),
        ("tsMs", RecordValue::Number(ts_ms)),
    ];
    assert(record_view(r@) =~= seq![
        ("schemaVersion"@, RecordValueView::Number(EVENT_SCHEMA_VERSION)),
        ("event"@, RecordValueView::Text(kind@)),
        ("runId"@, run@),
        ("tsMs"@, RecordValueView::Number(ts_ms)),
    ]);
    r
}

/// Builds the record of one executor event, taken at `ts_ms` milliseconds
/// since the epoch.
pub fn event_record(event: &Event, ts_ms: u64) -> (r: Vec<(&'static str, RecordValue)>)
    ensures
        record_view(r@) == event_record_spec(*event, ts_ms),
{
    match event {
        Event::Started {
            run_id,
            trigger,
            batch,
            predecessor,
            changed,
            commands,
            target,
            effective_concurrency,
            concurrency_source,
            ..
        } => {
            let mut r = head("started", RecordValue::Number(*run_id), ts_ms);
            let ghost h = record_view(r@);
            let concurrency = match effective_concurrency {
                Some(n) => Some(*n as u64),
                None => None,
            };
            let source = match concurrency_source {
                Some(s) => RecordValue::Text(crate::text::owned(s)),
                None => RecordValue::Null,
            };
            let mut tail = vec![
                ("trigger", RecordValue::Text(trigger.clone())),
                ("batch", num_value(*batch)),
                ("predecessor", num_value(*predecessor)),
                ("changed", list_value(changed)),
                ("commands", list_value(commands)),
                ("target", text_value(target)),
                ("effectiveConcurrency", num_value(concurrency)),
                ("concurrencySource", source),
            ];
            let ghost t = record_view(tail@);
            r.append(&mut tail);
            assert(record_view(r@) =~= h + t);
            r
        },
        Event::Tick { task, group_occurrence } => {
            let mut r = head("tick", RecordValue::Null, ts_ms);
            let ghost h = record_view(r@);
            let mut tail = vec![
                ("task", RecordValue::Text(task.clone())),
                ("group", text_value(group_occurrence)),
            ];
            let ghost t = record_view(tail@);
            r.append(&mut tail);
            assert(record_view(r@) =~= h + t);
            r
        },
        Event::TaskTerminal { run_id, task } => {
            let mut r = head("task_terminal", RecordValue::Number(*run_id), ts_ms);
            let ghost h = record_view(r@);
            let state = match task.state {
                TaskState::Passed => "passed",
                TaskState::Failed => "failed",
                TaskState::Cancelled => "cancelled",
                TaskState::TimedOut => "timedout",
            };
            let mut tail = vec![
                ("task", RecordValue::Text(task.name.clone())),
                ("group", RecordValue::Text(task.id.clone())),
                ("state", RecordValue::Text(crate::text::owned(state))),
                ("durationMs", num_value(task.duration_ms)),
            ];
            let ghost t = record_view(tail@);
            r.append(&mut tail);
            assert(record_view(r@) =~= h + t);
            r
        },
        Event::Finished { run_id, superseded_by, elapsed_ms, failures } => {
            let mut r = head("finished", RecordValue::Number(*run_id), ts_ms);
            let ghost h = record_view(r@);
            let mut tail = vec![
                ("elapsedMs", RecordValue::Number(*elapsed_ms)),
                ("failures", list_value(failures)),
                ("supersededBy", num_value(*superseded_by)),
            ];
            let ghost t = record_view(tail@);
            r.append(&mut tail);
            assert(record_view(r@) =~= h + t);
            r
        },
        Event::Cancelled { run_id, superseded_by } => {
            let mut r = head("cancelled", RecordValue::Number(*run_id), ts_ms);
            let ghost h = record_view(r@);
            let mut tail = vec![("supersededBy", num_value(*superseded_by))];
            let ghost t = record_view(tail@);
            r.append(&mut tail);
            assert(record_view(r@) =~= h + t);
            r
        },
        Event::RecoveryPhase { run_id, job, phase, outcome } => {
            let mut r = head("recovery_phase", RecordValue::Number(*run_id), ts_ms);
            let ghost h = record_view(r@);
            let mut tail = vec![
                ("job", RecordValue::Text(job.clone())),
                ("phase", RecordValue::Text(phase.clone())),
                ("outcome", text_value(outcome)),
            ];
            let ghost t = record_view(tail@);
            r.append(&mut tail);
            assert(record_view(r@) =~= h + t);
            r
        },
    }
}


/// A task's terminal record carries the task's own state under "state":
/// the wire names "passed", "failed", "cancelled" and "timedout" name
/// exactly the passed, failed, cancelled and timed-out tasks, so the
/// records of two terminal events that differ only in the task's state
/// differ.
pub proof fn law_terminal_record_names_state(run_id: u64, task: TaskSnapshot, other: TaskState, ts_ms: u64)
    ensures
        event_record_spec(Event::TaskTerminal { run_id, task }, ts_ms)[6] == (
            "state"@,
            RecordValueView::Text(state_name(task.state)),
        ),
        (state_name(task.state) == "passed"@) <==> task.state is Passed,
        (state_name(task.state) == "failed"@) <==> task.state is Failed,
        (state_name(task.state) == "cancelled"@) <==> task.state is Cancelled,
        (state_name(task.state) == "timedout"@) <==> task.state is TimedOut,
        other != task.state ==> event_record_spec(Event::TaskTerminal { run_id, task }, ts_ms)
            != event_record_spec(
            Event::TaskTerminal { run_id, task: TaskSnapshot { state: other, ..task } },
            ts_ms,
        ),
{
    lemma_labels_distinct();
    assert(state_name(task.state) == state_label(task.state));
    assert(state_name(other) == state_label(other));
    let a = event_record_spec(Event::TaskTerminal { run_id, task }, ts_ms);
    let b = event_record_spec(
        Event::TaskTerminal { run_id, task: TaskSnapshot { state: other, ..task } },
        ts_ms,
    );
    assert(a[6] == ("state"@, RecordValueView::Text(state_name(task.state))));
    assert(b[6] == ("state"@, RecordValueView::Text(state_name(other))));
    if other != task.state {
        assert(state_name(other) != state_name(task.state));
        assert(a[6] != b[6]);
    }
}

} // verus!
