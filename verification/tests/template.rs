use funzzy::rules::CommandLine;
use funzzy::template::{render_paths, template, template_line, TemplateOptions};

#[test]
fn it_expands_filepath_template_inside_each_argv_element() {
    let output = template_line(
        CommandLine::Argv(vec![
            "echo".to_owned(),
            "changed: {{filepath}}".to_owned(),
            "--path={{relative_filepath}}".to_owned(),
        ]),
        TemplateOptions {
            filepath: Some("/foo/bar/tests/foo.rs".to_owned()),
            paths: vec![],
            current_dir: "/foo/bar".to_owned(),
        },
    );

    assert_eq!(
        output.command,
        CommandLine::Argv(vec![
            "echo".to_owned(),
            "changed: /foo/bar/tests/foo.rs".to_owned(),
            "--path=tests/foo.rs".to_owned(),
        ])
    );
    assert!(output.unknown_variables.is_empty());
}

#[test]
fn it_expands_filepath_template_inside_shell_command_line() {
    let output = template_line(
        CommandLine::Shell("echo {{filepath}}".to_owned()),
        TemplateOptions {
            filepath: Some("tests/foo.rs".to_owned()),
            paths: vec![],
            current_dir: "/foo/bar".to_owned(),
        },
    );

    assert_eq!(output.command, CommandLine::Shell("echo tests/foo.rs".to_owned()));
}

#[test]
fn it_reports_unknown_variables_in_argv_elements() {
    let output = template_line(
        CommandLine::Argv(vec!["echo {{unknown_var}}".to_owned()]),
        TemplateOptions {
            filepath: Some("x".to_owned()),
            paths: vec![],
            current_dir: "/".to_owned(),
        },
    );

    assert_eq!(output.unknown_variables, vec!["unknown_var".to_owned()]);
}

#[test]
fn it_replaces_filepath_tpl_with_absolute_filepath() {
    let output = template(
        vec![
            "cargo tests {{filepath}}".to_owned(),
            "echo {{filepath}}".to_owned(),
            "make tests {{filepath}}".to_owned(),
        ],
        TemplateOptions {
            filepath: Some("tests/foo.rs".to_owned()),
            paths: vec![],
            current_dir: "/foo/bar".to_owned(),
        },
    );

    assert_eq!(
        output.commands,
        vec!["cargo tests tests/foo.rs", "echo tests/foo.rs", "make tests tests/foo.rs"]
    );
    assert!(output.unknown_variables.is_empty());

    let output = template(
        vec![
            "cargo tests {{filepath}}".to_owned(),
            "echo {{filepath}}".to_owned(),
            "make tests {{filepath}}".to_owned(),
        ],
        TemplateOptions {
            filepath: Some("/bar/baz/tests/foo.rs".to_owned()),
            paths: vec![],
            current_dir: "/foo/bar".to_owned(),
        },
    );

    assert_eq!(
        output.commands,
        vec![
            "cargo tests /bar/baz/tests/foo.rs",
            "echo /bar/baz/tests/foo.rs",
            "make tests /bar/baz/tests/foo.rs"
        ]
    );
}

#[test]
fn it_replaces_relative_filepath_tpl_with_relative_filepath() {
    let output = template(
        vec![
            "cargo tests {{relative_filepath}}".to_owned(),
            "git add {{relative_path}}".to_owned(),
            "echo {{filepath}}".to_owned(),
            "make tests {{absolute_path}}".to_owned(),
        ],
        TemplateOptions {
            filepath: Some("/foo/bar/tests/foo.rs".to_owned()),
            paths: vec![],
            current_dir: "/foo/bar".to_owned(),
        },
    );

    assert_eq!(
        output.commands,
        vec![
            "cargo tests tests/foo.rs",
            "git add tests/foo.rs",
            "echo /foo/bar/tests/foo.rs",
            "make tests /foo/bar/tests/foo.rs"
        ]
    );
    assert!(output.unknown_variables.is_empty());
}

#[test]
fn it_reports_unknown_template_variables() {
    let output = template(
        vec![
            "echo {{filepath}}".to_owned(),
            "echo {{mystery}}".to_owned(),
            "echo {{mystery}} again".to_owned(),
        ],
        TemplateOptions {
            filepath: Some("tests/foo.rs".to_owned()),
            paths: vec![],
            current_dir: "/foo/bar".to_owned(),
        },
    );

    assert_eq!(
        output.commands,
        vec!["echo tests/foo.rs", "echo {{mystery}}", "echo {{mystery}} again"]
    );
    // One report per occurrence.
    assert_eq!(output.unknown_variables, vec!["mystery", "mystery"]);
}

#[test]
fn render_paths_joins_and_shell_escapes_every_path() {
    assert_eq!(render_paths(&[]), "");
    assert_eq!(
        render_paths(&["a.txt".to_owned(), "b c.txt".to_owned()]),
        "'a.txt' 'b c.txt'"
    );
    // Embedded single quotes are escaped for shell safety.
    assert_eq!(render_paths(&["it's.rs".to_owned()]), "'it'\\''s.rs'");
}

#[test]
fn paths_template_expands_to_the_complete_batch() {
    let output = template_line(
        CommandLine::Shell("echo {{paths}}".to_owned()),
        TemplateOptions {
            filepath: Some("a.txt".to_owned()),
            paths: vec!["a.txt".to_owned(), "b c.txt".to_owned()],
            current_dir: "/workspace".to_owned(),
        },
    );
    assert_eq!(output.command, CommandLine::Shell("echo 'a.txt' 'b c.txt'".to_owned()));
    assert!(output.unknown_variables.is_empty());
}

#[test]
fn filepath_stays_backward_compatible_alongside_paths() {
    let output = template(
        vec!["echo {{filepath}}; echo {{paths}}".to_owned()],
        TemplateOptions {
            filepath: Some("trigger.txt".to_owned()),
            paths: vec!["trigger.txt".to_owned()],
            current_dir: "/workspace".to_owned(),
        },
    );
    assert_eq!(output.commands, vec!["echo trigger.txt; echo 'trigger.txt'".to_owned()]);
    assert!(output.unknown_variables.is_empty());
}

#[test]
fn paths_renders_empty_when_no_batch() {
    let output = template(
        vec!["echo [{{paths}}]".to_owned()],
        TemplateOptions { filepath: None, paths: vec![], current_dir: "/workspace".to_owned() },
    );
    assert_eq!(output.commands, vec!["echo []".to_owned()]);
}

#[test]
fn template_keeps_text_after_a_second_closing_brace_pair_out() {
    // Only the text between the first and second `}}` follows a variable.
    let output = template(
        vec!["a {{filepath}}b}}c".to_owned(), "plain }} text".to_owned()],
        TemplateOptions {
            filepath: Some("f".to_owned()),
            paths: vec![],
            current_dir: "/".to_owned(),
        },
    );
    assert_eq!(output.commands, vec!["a fb".to_owned(), "plain }} text".to_owned()]);
}

#[test]
fn template_trims_whitespace_inside_the_braces() {
    let output = template(
        vec!["run {{ filepath }} {{ other }}".to_owned()],
        TemplateOptions {
            filepath: Some("/w/x.rs".to_owned()),
            paths: vec![],
            current_dir: "/w".to_owned(),
        },
    );
    assert_eq!(output.commands, vec!["run /w/x.rs {{ other }}".to_owned()]);
    assert_eq!(output.unknown_variables, vec!["other".to_owned()]);
}
