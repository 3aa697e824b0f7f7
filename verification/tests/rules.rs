use funzzy::rules::{available_targets, command_lines, commands, validate_rules, CommandLine, Rules};

fn rule(name: &str, commands: &[&str], watches: &[&str], ignores: &[&str], run_on_init: bool) -> Rules {
    Rules::new(
        name.to_owned(),
        commands.iter().map(|s| s.to_string()).collect(),
        watches.iter().map(|s| s.to_string()).collect(),
        ignores.iter().map(|s| s.to_string()).collect(),
        run_on_init,
    )
}

#[test]
fn available_targets_lists_names_patterns_and_init_trigger() {
    let rules = vec![
        rule("my tests @quick", &["cargo test"], &["tests/**", "src/**"], &[], false),
        rule("startup", &["echo ready"], &[], &[], true),
    ];

    assert_eq!(
        available_targets(&rules),
        "Available tasks\n  - my tests @quick\n    change: tests/**, src/**\n  - startup\n    run_on_init: true\n"
    );
}

#[test]
fn available_targets_handles_empty_config() {
    assert_eq!(available_targets(&[]), "Available tasks\n  (none)\n");
}

#[test]
fn argv_rule_keeps_exact_argv_and_never_splits_it() {
    let rule = Rules::from_argv(
        "unnamed".to_owned(),
        vec!["echo".to_owned(), "hello world".to_owned()],
        vec!["**/*.txt".to_owned()],
        vec![],
        true,
    );

    assert_eq!(rule.argv(), Some(vec!["echo".to_owned(), "hello world".to_owned()]));
    assert_eq!(
        rule.command_lines(),
        vec![CommandLine::Argv(vec!["echo".to_owned(), "hello world".to_owned()])]
    );
    // Display form joins for presentation only; execution keeps argv.
    assert_eq!(rule.commands(), vec!["echo hello world"]);
}

#[test]
fn shell_rule_keeps_each_command_as_shell_line() {
    let rule = rule("my tests", &["cargo test", "make lint"], &[], &[], false);

    assert_eq!(rule.argv(), None);
    assert_eq!(
        rule.command_lines(),
        vec![
            CommandLine::Shell("cargo test".to_owned()),
            CommandLine::Shell("make lint".to_owned()),
        ]
    );
}

#[test]
fn command_lines_flatten_preserves_each_rules_boundary() {
    let rules = vec![
        rule("one", &["echo a"], &[], &[], false),
        Rules::from_argv(
            "two".to_owned(),
            vec!["printf".to_owned(), "%s".to_owned()],
            vec![],
            vec![],
            false,
        ),
    ];

    assert_eq!(
        command_lines(rules),
        vec![
            CommandLine::Shell("echo a".to_owned()),
            CommandLine::Argv(vec!["printf".to_owned(), "%s".to_owned()]),
        ]
    );
}

#[test]
fn argv_rule_passes_validation_without_run_property() {
    let rule = Rules::from_argv(
        "unnamed".to_owned(),
        vec!["echo".to_owned()],
        vec!["**/*.txt".to_owned()],
        vec![],
        true,
    );
    assert!(rule.validate().is_ok());
}

#[test]
fn it_is_watching_path_tests() {
    let first = rule("my tests", &["cargo tests"], &["tests/**"], &[], false);
    let second = rule(
        "my tests",
        &["cargo tests"],
        &["src/**/*.rs", "src/**/*.rs?", "src/**/*.ab[cx]"],
        &[],
        false,
    );

    assert_eq!(true, first.watch("tests/foo.rs"));

    // src/**/*.rs
    assert_eq!(true, second.watch("src/foo.rsx"));
    assert_eq!(true, second.watch("src/bar/foo.rs"));
    assert_eq!(true, second.watch("src/bar/foo.rsx"));
    assert_eq!(true, second.watch("src/bar/foo.rs3"));
    assert_eq!(true, second.watch("src/bar/foo.rs&"));
    assert_eq!(true, second.watch("src/bar/foo.abc"));
    assert_eq!(true, second.watch("src/bar/foo.abx"));
    // but not
    assert_eq!(false, second.watch("src/bar/foo.ab"));
}

#[test]
fn it_is_not_watching_path_test() {
    let rule = rule("my tests", &["cargo tests"], &["foo/**"], &[], false);

    assert_eq!(false, rule.watch("tests/foo.rs"));
}

#[test]
fn it_accepts_run_on_init() {
    let rule = rule("my tests", &["cargo tests"], &["foo/**"], &[], true);

    assert!(rule.run_on_init());
}

#[test]
fn it_accepts_false_for_run_on_init() {
    let rule = rule("my tests", &["cargo tests"], &["foo/**"], &[], false);

    assert!(!rule.run_on_init());
}

#[test]
fn it_defaults_run_on_init_to_false() {
    let rule = rule("my tests", &["cargo tests"], &["foo/**"], &[], false);

    assert!(!rule.run_on_init());
}

#[test]
fn it_is_ignoring_path_tests() {
    let rule = rule("my tests", &["cargo tests"], &["bla/**"], &["tests/**"], false);

    assert_eq!(true, rule.ignore("tests/foo.rs"));
}

#[test]
fn it_is_not_ignoring_path_test() {
    let rule = rule("my tests", &["cargo tests"], &["bla/**", "foo/**"], &[], false);

    assert_eq!(false, rule.ignore("tests/foo.rs"));
}

#[test]
fn it_validates_the_given_glob_patterns_paths() {
    let rules = vec![
        rule("this is valid", &["cargo tests"], &["**/*", "**/*.go"], &["**/*.log"], false),
        rule("this is an invalid pattern", &["echo invalid"], &["**/foo_**.go"], &["**/*.log"], false),
        rule("this is an invalid pattern 2", &["echo invalid"], &["**/*.go"], &["**/**.*"], false),
        rule("missing trigger property", &["echo invalid"], &[], &["**/*.go"], false),
    ];

    let first_rule = &rules[0];
    assert!(first_rule.validate().is_ok());

    // The invalid pattern rules
    let second_rule = &rules[1];
    assert!(second_rule.validate().is_err());
    assert_eq!(
        second_rule.validate().err().unwrap(),
        "Rule 'this is an invalid pattern' contains an invalid `change` glob pattern '**/foo_**.go'.
  Pattern syntax error near position 6: recursive wildcards must form a single path component
  Read more: https://en.wikipedia.org/wiki/Glob_(programming)"
    );

    let third_rule = &rules[2];
    assert!(third_rule.validate().is_err());
    assert_eq!(
        third_rule.validate().err().unwrap(),
        "Rule 'this is an invalid pattern 2' contains an invalid `ignore` glob pattern '**/**.*'.
  Pattern syntax error near position 5: recursive wildcards must form a single path component
  Read more: https://en.wikipedia.org/wiki/Glob_(programming)"
    );

    let fourth_rule = &rules[3];
    assert!(fourth_rule.validate().is_err());
    assert_eq!(
        fourth_rule.validate().err().unwrap(),
        "Rule 'missing trigger property' must contain a `change` and/or `run_on_init` property."
    );
}

#[test]
fn empty_rule_reports_missing_run_under_placeholder_name() {
    let rule = rule("", &[], &["src/**"], &[], false);
    assert_eq!(
        rule.validate().err().unwrap(),
        "Rule '_unnamed_' contains no command to run. Empty 'run' property."
    );
}

#[test]
fn validate_rules_reports_the_first_failing_rule() {
    let rules = vec![
        rule("ok", &["true"], &["src/**"], &[], false),
        rule("bad", &["true"], &[], &[], false),
        rule("worse", &[], &[], &[], false),
    ];
    assert_eq!(
        validate_rules(&rules).err().unwrap(),
        "Rule 'bad' must contain a `change` and/or `run_on_init` property."
    );
    assert!(validate_rules(&vec![]).is_ok());
}

#[test]
fn absolute_patterns_match_unnormalized_paths() {
    let rule = rule("abs", &["true"], &["/repo/src/**"], &["/repo/src/gen/**"], false);
    assert!(rule.watch("/repo/src/main.rs"));
    assert!(!rule.watch("/other/src/main.rs"));
    assert!(rule.ignore("/repo/src/gen/x.rs"));
    assert!(!rule.ignore("/repo/src/x.rs"));
}

#[test]
fn dot_slash_prefixes_are_trimmed_from_relative_patterns() {
    let rule = rule("dot", &["true"], &["././src/*.rs"], &[], false);
    assert!(rule.watch("src/lib.rs"));
    assert!(rule.watch("/src/lib.rs"));
}

#[test]
fn checked_matching_reports_patterns_that_cannot_compile() {
    let broken = rule("broken", &["true"], &["**/foo_**.go"], &["a**"], false);
    assert_eq!(broken.try_watch("x.go"), None);
    assert_eq!(broken.try_ignore("x"), None);
    let fine = rule("fine", &["true"], &["src/**"], &[], false);
    assert_eq!(fine.try_watch("src/a"), Some(true));
    assert_eq!(fine.try_watch("docs/a"), Some(false));
    // A match found before the broken pattern is reached decides the answer.
    let first_wins = rule("first", &["true"], &["src/**", "**/foo_**.go"], &[], false);
    assert_eq!(first_wins.try_watch("src/a"), Some(true));
}

#[test]
fn display_commands_flatten_every_rule() {
    let rules = vec![
        rule("a", &["one", "two"], &[], &[], true),
        Rules::from_argv("b".to_owned(), vec!["x".to_owned(), "y z".to_owned()], vec![], vec![], true),
    ];
    assert_eq!(commands(rules), vec!["one", "two", "x y z"]);
    assert_eq!(CommandLine::Argv(vec!["a".to_owned(), "b".to_owned()]).display(), "a b");
    assert_eq!(CommandLine::Shell("a b".to_owned()).display(), "a b");
}
