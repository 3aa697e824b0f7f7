use funzzy::plan::{RunOutcome, RunPlan, Stage, TaskOutcome};
use funzzy::rules::{CommandLine, Rules};
use funzzy::template::TemplateOptions;
use std::collections::BTreeMap;

fn rule(name: &str, group: Option<&str>, run_on_init: bool) -> Rules {
    let rule = Rules::new(
        name.to_owned(),
        vec![format!("echo {}", name)],
        vec!["src/**".to_owned()],
        vec![],
        run_on_init,
    );
    match group {
        Some(group) => rule.with_parallel(group.to_owned()),
        None => rule,
    }
}

fn names(plan: &RunPlan) -> Vec<String> {
    plan.task_names()
}

#[test]
fn ungrouped_tasks_stay_serial() {
    let plan = RunPlan::from_rules(vec![rule("A", None, false), rule("B", None, false)]);
    assert_eq!(names(&plan), vec!["A", "B"]);
    assert!(matches!(plan.stages[0], Stage::Serial(_)));
    assert!(matches!(plan.stages[1], Stage::Serial(_)));
}

#[test]
fn consecutive_same_group_forms_one_occurrence() {
    let plan = RunPlan::from_rules(vec![
        rule("A", None, false),
        rule("B", Some("checks"), false),
        rule("C", Some("checks"), false),
        rule("D", None, false),
    ]);
    assert_eq!(names(&plan), vec!["A", "B", "C", "D"]);
    assert!(
        matches!(plan.stages[1], Stage::Parallel { ref group, ref tasks } if group == "checks" && tasks.len() == 2)
    );
}

#[test]
fn reused_group_name_after_barrier_starts_new_occurrence() {
    let plan = RunPlan::from_rules(vec![
        rule("A", Some("x"), false),
        rule("B", None, false),
        rule("C", Some("x"), false),
    ]);
    let parallel_stages: Vec<&Stage> =
        plan.stages.iter().filter(|s| matches!(s, Stage::Parallel { .. })).collect();
    assert_eq!(parallel_stages.len(), 2, "reused name must not reconnect");
}

#[test]
fn different_group_names_create_two_occurrences() {
    let plan = RunPlan::from_rules(vec![rule("A", Some("one"), false), rule("B", Some("two"), false)]);
    let parallel_stages: Vec<&Stage> =
        plan.stages.iter().filter(|s| matches!(s, Stage::Parallel { .. })).collect();
    assert_eq!(parallel_stages.len(), 2);
}

#[test]
fn task_plan_preserves_commands_and_identity() {
    let plan = RunPlan::from_rules(vec![rule("A", Some("g"), false)]);
    let Stage::Parallel { tasks, .. } = &plan.stages[0] else {
        panic!("expected parallel stage");
    };
    assert_eq!(tasks[0].name, "A");
    assert_eq!(tasks[0].position, 0);
    assert_eq!(tasks[0].parallel.as_deref(), Some("g"));
    assert_eq!(tasks[0].commands, vec![CommandLine::Shell("echo A".to_owned())]);
}

#[test]
fn filtering_removes_unmatched_tasks_without_merging_occurrences() {
    let plan = RunPlan::from_rules(vec![
        rule("A", Some("x"), false),
        rule("B", None, false),
        rule("C", Some("x"), false),
    ]);
    // B is filtered out; the two x occurrences must stay separate.
    let filtered = plan.filter(|r| r.name != "B");
    let parallel_stages: Vec<&Stage> =
        filtered.stages.iter().filter(|s| matches!(s, Stage::Parallel { .. })).collect();
    assert_eq!(parallel_stages.len(), 2, "filter must not merge barriers");
    assert_eq!(names(&filtered), vec!["A", "C"]);
}

#[test]
fn filtering_group_down_to_one_member_keeps_occurrence_but_runs_alone() {
    let plan = RunPlan::from_rules(vec![rule("A", Some("x"), false), rule("B", Some("x"), false)]);
    let filtered = plan.filter(|r| r.name == "A");
    assert_eq!(names(&filtered), vec!["A"]);
    assert!(
        matches!(&filtered.stages[0], Stage::Parallel { group, tasks } if group == "x" && tasks.len() == 1)
    );
    // concurrency=1 flatten still yields exactly one command.
    assert_eq!(filtered.commands().len(), 1);
}

#[test]
fn sequential_plan_commands_match_legacy_flat_order() {
    let rules = vec![
        rule("A", None, false),
        rule("B", Some("g"), false),
        rule("C", Some("g"), false),
        rule("D", None, false),
    ];
    let plan = RunPlan::from_rules(rules.clone());

    let legacy: Vec<CommandLine> = rules.iter().flat_map(|r| r.command_lines()).collect();
    assert_eq!(plan.commands(), legacy);
    assert_eq!(plan.commands().len(), 4);
}

#[test]
fn serial_tasks_have_no_group_occurrence_identity() {
    let plan = RunPlan::from_rules(vec![rule("A", None, false), rule("B", None, false)]);
    for stage in &plan.stages {
        let Stage::Serial(task) = stage else {
            panic!("expected serial stage");
        };
        assert_eq!(task.group_occurrence, None);
    }
}

#[test]
fn one_parallel_occurrence_is_numbered_one() {
    let plan = RunPlan::from_rules(vec![rule("B", Some("checks"), false), rule("C", Some("checks"), false)]);
    let Stage::Parallel { tasks, .. } = &plan.stages[0] else {
        panic!("expected parallel stage");
    };
    for task in tasks {
        assert_eq!(task.group_occurrence.as_deref(), Some("checks#1"));
    }
}

#[test]
fn reused_group_name_after_barrier_gets_a_new_occurrence_id() {
    let plan = RunPlan::from_rules(vec![
        rule("A", Some("x"), false),
        rule("B", None, false),
        rule("C", Some("x"), false),
    ]);
    let parallel_stages: Vec<&Stage> =
        plan.stages.iter().filter(|s| matches!(s, Stage::Parallel { .. })).collect();
    assert_eq!(parallel_stages.len(), 2);
    let Stage::Parallel { tasks: first, .. } = &plan.stages[0] else {
        panic!("parallel stage");
    };
    let Stage::Parallel { tasks: second, .. } = &plan.stages[2] else {
        panic!("parallel stage");
    };
    assert_eq!(first[0].group_occurrence.as_deref(), Some("x#1"));
    assert_eq!(second[0].group_occurrence.as_deref(), Some("x#2"));
}

#[test]
fn filtering_keeps_group_occurrence_identity_stable() {
    let plan = RunPlan::from_rules(vec![rule("A", Some("x"), false), rule("B", Some("x"), false)]);
    let filtered = plan.filter(|r| r.name == "B");
    let Stage::Parallel { tasks, .. } = &filtered.stages[0] else {
        panic!("expected parallel stage");
    };
    assert_eq!(tasks[0].group_occurrence.as_deref(), Some("x#1"));
}

#[test]
fn outcome_combination_is_order_independent() {
    let a = RunOutcome::from_task_outcomes(vec![
        ("t1".to_owned(), TaskOutcome::Passed),
        ("t2".to_owned(), TaskOutcome::Failed { failures: vec!["boom".to_owned()] }),
    ]);
    let b = RunOutcome::from_task_outcomes(vec![
        ("t2".to_owned(), TaskOutcome::Failed { failures: vec!["boom".to_owned()] }),
        ("t1".to_owned(), TaskOutcome::Passed),
    ]);
    assert!(!a.is_success());
    assert!(a.has_failures());
    assert!(!a.is_cancelled());
    assert_eq!(a.failures(), b.failures());
}

#[test]
fn cancelled_run_is_never_success() {
    let outcome = RunOutcome::from_task_outcomes(vec![
        ("t1".to_owned(), TaskOutcome::Passed),
        ("t2".to_owned(), TaskOutcome::Cancelled),
    ]);
    assert!(!outcome.is_success());
    assert!(outcome.is_cancelled());
    assert!(!outcome.has_failures());
}

#[test]
fn argv_rules_keep_argv_commands_in_plan() {
    let argv_rule = Rules::from_argv(
        "fmt".to_owned(),
        vec!["cargo".to_owned(), "fmt".to_owned(), "{{filepath}}".to_owned()],
        vec!["src/**".to_owned()],
        vec![],
        false,
    );
    let plan = RunPlan::from_rules(vec![argv_rule]);
    let Stage::Serial(task) = &plan.stages[0] else {
        panic!("expected serial stage");
    };
    assert_eq!(
        task.commands,
        vec![CommandLine::Argv(vec!["cargo".to_owned(), "fmt".to_owned(), "{{filepath}}".to_owned()])]
    );
    assert_eq!(plan.commands().len(), 1);
}

#[test]
fn resolves_task_context_and_expands_relative_path_from_task_cwd() {
    let mut environment = BTreeMap::new();
    environment.insert("ROLE".to_owned(), "web".to_owned());
    let rule = Rules::new(
        "web".to_owned(),
        vec!["echo {{relative_filepath}}".to_owned()],
        vec!["packages/**".to_owned()],
        vec![],
        false,
    )
    .with_execution_context(Some("packages/web app".to_owned()), environment.clone());
    let root = "/tmp/work space".to_owned();
    let plan = RunPlan::from_rules(vec![rule]).resolve_context(&root).expect("relative cwd");
    let (expanded, unknown) = plan.expand(&TemplateOptions {
        filepath: Some("/tmp/work space/packages/web app/src/main.rs".to_owned()),
        paths: vec![],
        current_dir: root.clone(),
    });
    let Stage::Serial(task) = &expanded.stages[0] else {
        panic!("serial task");
    };

    assert_eq!(task.context.cwd, Some("/tmp/work space/packages/web app".to_owned()));
    assert_eq!(task.context.environment, environment);
    assert_eq!(task.commands, vec![CommandLine::Shell("echo src/main.rs".to_owned())]);
    assert!(unknown.is_empty());
}

#[test]
fn rejects_absolute_and_parent_task_working_directories() {
    for cwd in ["/tmp/outside", "../outside"] {
        let rule = Rules::new(
            "unsafe".to_owned(),
            vec!["true".to_owned()],
            vec!["src/**".to_owned()],
            vec![],
            false,
        )
        .with_execution_context(Some(cwd.to_owned()), BTreeMap::new());
        let error = RunPlan::from_rules(vec![rule])
            .resolve_context("/workspace")
            .expect_err("cwd escape must fail");
        assert!(error.contains("Task 'unsafe' cwd"), "unexpected: {error}");
    }
}

#[test]
fn empty_plan_reports_empty() {
    assert!(RunPlan::default().is_empty());
    assert!(RunPlan::from_rules(vec![]).is_empty());
}

#[test]
fn task_plan_expand_preserves_path_values_and_unknown_variables() {
    let rule = Rules::new(
        "t".to_owned(),
        vec!["echo {{filepath}} {{relative_filepath}} {{oops}}".to_owned()],
        vec!["src/**".to_owned()],
        vec![],
        false,
    );
    let plan = RunPlan::from_rules(vec![rule]);
    let Stage::Serial(task) = &plan.stages[0] else {
        panic!("expected serial stage");
    };

    let opts = TemplateOptions {
        filepath: Some("/root/src/main.rs".to_owned()),
        paths: vec![],
        current_dir: "/root".to_owned(),
    };
    let (expanded, unknown) = task.expand(&opts);

    assert_eq!(
        expanded,
        vec![CommandLine::Shell("echo /root/src/main.rs src/main.rs {{oops}}".to_owned())]
    );
    assert_eq!(unknown, vec!["oops".to_owned()]);
}

#[test]
fn resolved_context_joins_the_root_and_defaults_to_it() {
    let with_cwd = Rules::new("a".to_owned(), vec!["true".to_owned()], vec![], vec![], true)
        .with_execution_context(Some("pkg/..x".to_owned()), BTreeMap::new());
    let without = Rules::new("b".to_owned(), vec!["true".to_owned()], vec![], vec![], true);
    let plan = RunPlan::from_rules(vec![with_cwd, without]).resolve_context("/ws/").unwrap();
    let Stage::Serial(a) = &plan.stages[0] else { panic!("serial") };
    let Stage::Serial(b) = &plan.stages[1] else { panic!("serial") };
    assert_eq!(a.context.cwd.as_deref(), Some("/ws/pkg/..x"));
    assert_eq!(b.context.cwd.as_deref(), Some("/ws/"));
}

#[test]
fn failures_are_prefixed_with_their_task_in_plan_order() {
    let outcome = RunOutcome::from_task_outcomes(vec![
        ("b".to_owned(), TaskOutcome::Failed { failures: vec!["x".to_owned(), "y".to_owned()] }),
        ("a".to_owned(), TaskOutcome::Skipped),
        ("c".to_owned(), TaskOutcome::Failed { failures: vec!["z".to_owned()] }),
    ]);
    assert_eq!(outcome.failures(), vec!["b: x", "b: y", "c: z"]);
    assert!(RunOutcome::from_task_outcomes(vec![]).is_success());
}

#[test]
fn group_occurrences_count_per_name_across_the_plan() {
    let plan = RunPlan::from_rules(vec![
        rule("A", Some("x"), false),
        rule("B", Some("y"), false),
        rule("C", Some("x"), false),
        rule("D", Some("x"), false),
    ]);
    let ids: Vec<Option<String>> = plan
        .stages
        .iter()
        .flat_map(|s| match s {
            Stage::Serial(t) => vec![t.group_occurrence.clone()],
            Stage::Parallel { tasks, .. } => tasks.iter().map(|t| t.group_occurrence.clone()).collect(),
        })
        .collect();
    assert_eq!(
        ids,
        vec![Some("x#1".to_owned()), Some("y#1".to_owned()), Some("x#2".to_owned()), Some("x#2".to_owned())]
    );
}

#[test]
fn context_summary_redacts_environment_values() {
    let rule = Rules::new(
        "secret".to_owned(),
        vec!["true".to_owned()],
        vec!["src/**".to_owned()],
        vec![],
        false,
    )
    .with_execution_context(
        Some("service".to_owned()),
        BTreeMap::from([("TOKEN".to_owned(), "do-not-print".to_owned())]),
    );
    let summary = RunPlan::from_rules(vec![rule]).context_summary();
    assert!(summary.contains("env=[TOKEN]"));
    assert!(!summary.contains("do-not-print"));
}

#[test]
fn context_summary_lists_every_task_with_sorted_names() {
    let a = Rules::new("a".to_owned(), vec!["true".to_owned()], vec![], vec![], false)
        .with_execution_context(
            None,
            BTreeMap::from([
                ("ZED".to_owned(), "1".to_owned()),
                ("ALPHA".to_owned(), "2".to_owned()),
            ]),
        );
    let b = Rules::new("b".to_owned(), vec!["true".to_owned()], vec![], vec![], false);
    let summary = RunPlan::from_rules(vec![a, b]).context_summary();
    assert_eq!(
        summary,
        "task=a cwd=<workspace> env=[ALPHA, ZED]\ntask=b cwd=<workspace> env=[]"
    );
}
