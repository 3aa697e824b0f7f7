use funzzy::executor::{TaskSnapshot, TaskState};
use funzzy::stdout::job_duration_rows;

fn format_job_duration(duration_ms: u64) -> String {
    if duration_ms < 100 {
        format!("{duration_ms}ms")
    } else {
        format!("{:.1}s", duration_ms as f64 / 1_000.0)
    }
}

fn rows_of(tasks: &[TaskSnapshot]) -> Vec<String> {
    let durations: Vec<String> = tasks
        .iter()
        .map(|t| t.duration_ms.map(format_job_duration).unwrap_or_default())
        .collect();
    job_duration_rows(tasks, &durations)
}

#[test]
fn job_duration_rows_preserve_declaration_order_and_absent_duration() {
    let rows = rows_of(&[
        TaskSnapshot {
            position: 0,
            id: "format".to_owned(),
            name: "format".to_owned(),
            state: TaskState::Passed,
            duration_ms: Some(700),
        },
        TaskSnapshot {
            position: 1,
            id: "checks#1".to_owned(),
            name: "lint".to_owned(),
            state: TaskState::Failed,
            duration_ms: Some(1_800),
        },
        TaskSnapshot {
            position: 2,
            id: "docs".to_owned(),
            name: "docs".to_owned(),
            state: TaskState::Cancelled,
            duration_ms: None,
        },
    ]);

    assert!(rows[0].contains("JOB") && rows[0].contains("RESULT"));
    assert!(rows[1].contains("format") && rows[1].ends_with("0.7s"));
    assert!(rows[2].contains("[checks#1] lint") && rows[2].ends_with("1.8s"));
    assert!(rows[3].contains("docs") && rows[3].ends_with("-"));
}

#[test]
fn job_duration_table_aligns_columns() {
    let rows = rows_of(&[TaskSnapshot {
        position: 0,
        id: "a".to_owned(),
        name: "a".to_owned(),
        state: TaskState::TimedOut,
        duration_ms: Some(42),
    }]);
    assert_eq!(rows, vec!["JOB  RESULT    DURATION".to_owned(), "a    timedout  42ms".to_owned()]);
}

#[test]
fn empty_task_list_has_no_table() {
    assert!(job_duration_rows(&[], &[]).is_empty());
}
