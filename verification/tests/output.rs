use funzzy::output::{
    find_generation, next_cursor, page_plan, parse_cursor, resolve_task, wanted_task,
    RetrievalError,
};

fn ids(v: &[&str]) -> Vec<String> {
    v.iter().map(|s| s.to_string()).collect()
}

#[test]
fn unknown_generation_lists_every_retained_one() {
    assert_eq!(find_generation(&[3, 4, 5], 4), Ok(1));
    assert_eq!(
        find_generation(&[3, 4], 9),
        Err(RetrievalError::GenerationNotFound { retained: vec![3, 4] })
    );
    assert_eq!(
        find_generation(&[], 1),
        Err(RetrievalError::GenerationNotFound { retained: vec![] })
    );
}

#[test]
fn blank_task_requests_every_task() {
    assert_eq!(wanted_task(Some("  build  ")), Some("build".to_owned()));
    assert_eq!(wanted_task(Some("   ")), None);
    assert_eq!(wanted_task(None), None);
}

#[test]
fn exact_task_match_takes_precedence_over_canonical_resolution() {
    let retained = ids(&["run integration", "run integration @agent-final"]);
    assert_eq!(
        resolve_task(&retained, &"run integration".to_owned()),
        Ok((ids(&["run integration"]), None))
    );
}

#[test]
fn unambiguous_canonical_task_candidate_is_resolved() {
    let retained = ids(&["build", "run integration @agent-final"]);
    assert_eq!(
        resolve_task(&retained, &"run integration".to_owned()),
        Ok((
            ids(&["run integration @agent-final"]),
            Some("run integration @agent-final".to_owned())
        ))
    );
}

#[test]
fn ambiguous_canonical_task_candidates_error_without_guessing() {
    let retained = ids(&["test @a", "test @b", "lint"]);
    assert_eq!(
        resolve_task(&retained, &"test".to_owned()),
        Err(RetrievalError::TaskNotFound {
            task: "test".to_owned(),
            candidates: ids(&["test @a", "test @b"]),
            ambiguous: true,
        })
    );
    assert_eq!(
        resolve_task(&retained, &"deploy".to_owned()),
        Err(RetrievalError::TaskNotFound {
            task: "deploy".to_owned(),
            candidates: retained.clone(),
            ambiguous: false,
        })
    );
}

#[test]
fn page_orders_by_task_then_stdout_then_stderr() {
    let sorted = ids(&["b", "a"]);
    assert_eq!(
        page_plan(&sorted, None),
        vec![
            ("a".to_owned(), false),
            ("a".to_owned(), true),
            ("b".to_owned(), false),
            ("b".to_owned(), true),
        ]
    );
    assert_eq!(
        page_plan(&sorted, Some("stderr")),
        vec![("a".to_owned(), true), ("b".to_owned(), true)]
    );
    assert_eq!(
        page_plan(&sorted, Some("stdout")),
        vec![("a".to_owned(), false), ("b".to_owned(), false)]
    );
}

#[test]
fn page_stale_or_tampered_cursor_is_typed_invalid() {
    let positions = [(false, 10u64), (true, 4u64)];
    let invalid = |reason: &str| {
        Err(RetrievalError::InvalidCursor { reason: reason.to_owned() })
    };
    assert_eq!(parse_cursor("7|1|1|3", 7, &positions), Ok((1, 3)));
    assert_eq!(
        parse_cursor("7|1|1", 7, &positions),
        invalid("cursor must be '<gen>|<plan>|<stream>|<offset>', got \"7|1|1\"")
    );
    assert_eq!(
        parse_cursor("7|x|1|3", 7, &positions),
        invalid("cursor is not numeric: \"7|x|1|3\"")
    );
    assert_eq!(
        parse_cursor("6|1|1|3", 7, &positions),
        invalid("cursor generation 6 does not match requested generation 7")
    );
    assert_eq!(
        parse_cursor("7|2|1|3", 7, &positions),
        invalid("cursor plan index 2 out of range (2 positions)")
    );
    assert_eq!(
        parse_cursor("7|1|0|3", 7, &positions),
        invalid("cursor stream index 0 does not match position 1")
    );
    assert_eq!(
        parse_cursor("7|1|1|5", 7, &positions),
        invalid("cursor byte offset 5 beyond retained 4 bytes")
    );
}

#[test]
fn page_cursor_round_trips() {
    let cursor = next_cursor(7, 1, true, 3);
    assert_eq!(cursor, "7|1|1|3");
    assert_eq!(parse_cursor(&cursor, 7, &[(false, 10), (true, 4)]), Ok((1, 3)));
}

use funzzy::output::{PageWalk, WalkAction, WalkEvent, WalkPhase};

#[test]
fn page_returns_first_chunk_with_next_cursor() {
    let mut walk = PageWalk::new(2, (0, 0));
    assert_eq!(walk.first_action(), WalkAction::Inspect { index: 0, begin: 0 });
    let boundaries: Vec<usize> = (0..=10).collect();
    let inspected = WalkEvent::Inspected {
        stream_len: 10,
        text_len: 10,
        boundaries,
        fits_whole: false,
    };
    assert_eq!(walk.step(inspected), WalkAction::Measure { keep: 6 });
    assert_eq!(walk.step(WalkEvent::Measured { fits: true }), WalkAction::Measure { keep: 9 });
    assert_eq!(walk.step(WalkEvent::Measured { fits: false }), WalkAction::Measure { keep: 7 });
    assert_eq!(walk.step(WalkEvent::Measured { fits: true }), WalkAction::Measure { keep: 8 });
    assert_eq!(
        walk.step(WalkEvent::Measured { fits: false }),
        WalkAction::Close { keep: 7, next: Some((0, 7)) }
    );
    assert_eq!(walk.returned, 7);
    assert_eq!(walk.phase, WalkPhase::Done { next: Some((0, 7)) });
}

#[test]
fn page_resumes_exactly_from_cursor_without_skip_or_duplicate() {
    let mut walk = PageWalk::new(2, (0, 7));
    assert_eq!(walk.first_action(), WalkAction::Inspect { index: 0, begin: 7 });
    let rest = WalkEvent::Inspected {
        stream_len: 10,
        text_len: 3,
        boundaries: vec![0, 1, 2, 3],
        fits_whole: true,
    };
    assert_eq!(walk.step(rest), WalkAction::IncludeWhole);
    assert_eq!(walk.returned, 3);
    assert_eq!(walk.phase, WalkPhase::Scanning { index: 1, begin: 0 });
    let empty = WalkEvent::Inspected {
        stream_len: 0,
        text_len: 0,
        boundaries: vec![0],
        fits_whole: true,
    };
    assert_eq!(walk.first_action(), WalkAction::Inspect { index: 1, begin: 0 });
    assert_eq!(walk.step(empty), WalkAction::Finished);
    assert_eq!(walk.phase, WalkPhase::Done { next: None });
}

use funzzy::output::{legacy_retrieve_command, output_ref, primary_task, shell_quote};

#[test]
fn output_ref_retrieve_command_is_shell_safe_with_quotes_and_spaces() {
    let task = "run integration @agent-final it's 'quoted'";
    let reference = output_ref("fz-7f3a", 7, task);
    let command = &reference.retrieve;
    assert!(command.contains("--task '"), "task must be single-quoted: {command}");
    assert!(command.matches("'\\''").count() >= 2);
    assert!(command.contains(" --instance 'fz-7f3a'"), "{command}");
    assert!(command.contains(" --tail 80"), "{command}");
    assert_eq!(
        command,
        "fzz control output --instance 'fz-7f3a' --generation 7 --task 'run integration @agent-final it'\\''s '\\''quoted'\\''' --tail 80"
    );
    assert_eq!(reference.mode, "tail");
    assert_eq!(reference.task, task);
    assert!(reference.max_bytes > 0);
    assert_eq!(shell_quote("my tests"), "'my tests'");
    assert_eq!(
        legacy_retrieve_command(7, "my tests"),
        "fzz control output --generation 7 --task 'my tests' --tail 80"
    );
}

#[test]
fn evidence_prefers_a_failed_task_over_first_retained() {
    let retained = ids(&["slow pass", "fast fail"]);
    assert_eq!(
        primary_task(&retained, &ids(&["fast fail"])),
        Some("fast fail".to_owned())
    );
    assert_eq!(primary_task(&retained, &ids(&["nope"])), Some("slow pass".to_owned()));
    assert_eq!(primary_task(&vec![], &ids(&["nope"])), None);
}

use funzzy::output::{render_stream, stream_content, stream_requested, CapturedStream};

fn captured(text: &str) -> CapturedStream {
    CapturedStream { bytes: text.as_bytes().to_vec(), observed_bytes: text.len() as u64, truncated: false }
}

#[test]
fn retrieve_tail_returns_last_n_lines() {
    assert_eq!(stream_content("a\nb\nc\n", Some(2), false), "b\nc\n");
    assert_eq!(stream_content("a\nb\nc", Some(1), false), "c");
    assert_eq!(stream_content("a\nb\n", Some(5), false), "a\nb\n");
    assert_eq!(stream_content("", Some(3), false), "");
}

#[test]
fn retrieve_full_returns_everything_retained() {
    assert_eq!(stream_content("a\nb\nc\n", Some(1), true), "a\nb\nc\n");
    let lines: String = (0..50).map(|n| format!("{n}\n")).collect();
    let default_tail = stream_content(&lines, None, false);
    assert_eq!(default_tail.lines().count(), 40);
    assert!(default_tail.starts_with("10\n"));
}

#[test]
fn stream_filter_selects_stderr_only() {
    assert!(stream_requested(None, true));
    assert!(stream_requested(Some("stderr"), true));
    assert!(!stream_requested(Some("stderr"), false));
    assert!(stream_requested(Some("stdout"), false));
    assert!(!stream_requested(Some("both"), false));
    let out = render_stream(&captured("one\ntwo\n"), Some("stderr"), None, true, true).unwrap();
    assert_eq!(out.content, "one\ntwo\n");
    assert_eq!(out.lines, 2);
    assert_eq!(out.retained_bytes, 8);
    assert!(render_stream(&captured("x\n"), Some("stderr"), None, true, false).is_none());
}

#[test]
fn non_utf8_bytes_are_retained_raw_and_rendered_lossy() {
    let raw = CapturedStream { bytes: vec![b'o', b'k', 0xff, b'\n'], observed_bytes: 4, truncated: true };
    let out = render_stream(&raw, None, None, true, false).unwrap();
    assert_eq!(out.content, "ok\u{fffd}\n");
    assert_eq!(out.retained_bytes, 4);
    assert!(out.truncated);
}

use funzzy::output::{OutputLedger, RetainedTask, OUTPUT_RETENTION_BYTES};

fn retained(task: &str, bytes: usize) -> RetainedTask {
    RetainedTask {
        task: task.to_owned(),
        stdout: CapturedStream { bytes: vec![b'y'; bytes], observed_bytes: bytes as u64, truncated: false },
        stderr: CapturedStream { bytes: vec![], observed_bytes: 0, truncated: false },
    }
}

#[test]
fn eviction_drops_oldest_generation_first() {
    let mut ledger = OutputLedger::new();
    let stream = 64 * 1024;
    for generation in 1..=2u64 {
        for task in 0..16 {
            ledger.record(generation, retained(&format!("t{task}"), stream));
        }
    }
    let generations: Vec<u64> = ledger.generations.iter().map(|(g, _)| *g).collect();
    assert_eq!(generations, vec![2]);
    assert_eq!(find_generation(&generations, 1), Err(RetrievalError::GenerationNotFound { retained: vec![2] }));
    let total: usize = ledger.generations[0].1.iter().map(|t| t.stdout.bytes.len()).sum();
    assert!(total <= OUTPUT_RETENTION_BYTES);
}

#[test]
fn recording_a_task_again_replaces_its_output() {
    let mut ledger = OutputLedger::new();
    ledger.record(7, retained("lint", 3));
    ledger.record(7, retained("test", 4));
    ledger.record(7, retained("lint", 5));
    let (generation, tasks) = &ledger.generations[0];
    assert_eq!(*generation, 7);
    let names: Vec<&str> = tasks.iter().map(|t| t.task.as_str()).collect();
    assert_eq!(names, vec!["test", "lint"]);
    assert_eq!(tasks[1].stdout.bytes.len(), 5);
}

#[test]
fn empty_registry_reports_nothing_retained() {
    let ledger = OutputLedger::new();
    let generations: Vec<u64> = ledger.generations.iter().map(|(g, _)| *g).collect();
    assert_eq!(
        find_generation(&generations, 1),
        Err(RetrievalError::GenerationNotFound { retained: vec![] })
    );
    assert_eq!(primary_task(&vec![], &vec![]), None);
}

fn task_with(task: &str, stdout: &str) -> RetainedTask {
    RetainedTask {
        task: task.to_owned(),
        stdout: CapturedStream {
            bytes: stdout.as_bytes().to_vec(),
            observed_bytes: stdout.len() as u64,
            truncated: false,
        },
        stderr: CapturedStream { bytes: vec![], observed_bytes: 0, truncated: false },
    }
}

#[test]
fn failure_evidence_is_concise_and_carries_retrieval_hint() {
    let mut ledger = OutputLedger::new();
    ledger.record(7, task_with("my tests", "error: boom\ndetail line\n"));
    let evidence = ledger.failure_evidence(7, 40, "fz-7f3a", &vec![]).expect("evidence");
    assert!(evidence.excerpt.contains("error: boom"));
    assert_eq!(evidence.lines, 2);
    assert!(!evidence.truncated);
    assert_eq!(evidence.total_observed_bytes, 24);
    assert!(evidence.retrieve.contains("--generation 7 --task 'my tests'"));
    let output_ref = evidence.output_ref.expect("structured ref");
    assert_eq!(output_ref.instance_token, "fz-7f3a");
    assert_eq!(output_ref.generation, 7);
    assert_eq!(output_ref.task, "my tests");
    assert_eq!(output_ref.mode, "tail");
    assert!(output_ref.max_bytes > 0);
    assert!(output_ref.retrieve.contains("--instance 'fz-7f3a'"));
}

#[test]
fn evidence_counts_additional_failed_tasks_while_naming_primary() {
    let mut ledger = OutputLedger::new();
    ledger.record(7, task_with("lint", "lint boom\n"));
    ledger.record(7, task_with("test", "test boom\n"));
    let evidence = ledger.failure_evidence(7, 40, "fz-7f3a", &vec![]).expect("evidence");
    assert_eq!(evidence.output_ref.as_ref().unwrap().task, "lint");
    assert_eq!(evidence.additional_failed_tasks, 1);
    assert_eq!(evidence.retained_bytes, 10);
    let failed = ledger
        .failure_evidence(7, 40, "fz-7f3a", &vec!["test".to_owned()])
        .expect("evidence");
    assert_eq!(failed.output_ref.as_ref().unwrap().task, "test");
    assert!(failed.excerpt.contains("test boom"));
}

#[test]
fn evidence_without_output_has_no_ref_and_zero_additional() {
    let mut ledger = OutputLedger::new();
    ledger.record(7, task_with("t", ""));
    let evidence = ledger.failure_evidence(7, 40, "fz-7f3a", &vec![]).expect("evidence");
    assert!(evidence.output_ref.is_none());
    assert_eq!(evidence.additional_failed_tasks, 0);
    assert!(ledger.failure_evidence(8, 40, "fz-7f3a", &vec![]).is_none());
}

#[test]
fn evidence_excerpt_is_bounded_by_max_lines() {
    let mut ledger = OutputLedger::new();
    let lines: String = (0..100).map(|_| "line\n").collect();
    ledger.record(3, task_with("t", &lines));
    let evidence = ledger.failure_evidence(3, 40, "fz-test", &vec![]).expect("evidence");
    assert_eq!(evidence.lines, 40);
    assert!(evidence.truncated, "excerpt truncation must be marked");
    assert_eq!(evidence.excerpt, "line\n".repeat(40));
}

#[test]
fn empty_registry_generation_error_lists_nothing_retained() {
    let ledger = OutputLedger::new();
    match find_generation(&ledger.retained_generations(), 1).unwrap_err() {
        RetrievalError::GenerationNotFound { retained } => {
            assert!(retained.is_empty());
        }
        other => panic!("expected GenerationNotFound, got {:?}", other),
    }
}
