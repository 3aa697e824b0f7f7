use funzzy::option_catalog::{
    all_specs, execution_specs, find, hook_specs, is_optional, job_specs, on_specs,
    property_names, root_specs, Owner, SpecKind,
};

#[test]
fn on_inventory_matches_contract_section_3_2() {
    let actual: Vec<&str> = property_names(Owner::On);
    assert_eq!(
        actual,
        [
            "change",
            "ignore",
            "socket",
            "debounce",
            "watch_backend",
            "poll_interval",
            "respect_gitignore"
        ]
    );
    assert_eq!(
        property_names(Owner::Execution),
        ["concurrency", "output", "recovery_policy", "recovery_timeout"]
    );
    assert_eq!(property_names(Owner::Hooks), ["success", "failure", "close"]);
}

#[test]
fn job_inventory_matches_contract_section_3_3() {
    let expected = [
        "name",
        "run",
        "recovery",
        "change",
        "ignore",
        "run_on_init",
        "parallel",
        "cwd",
        "env",
        "service",
        "output",
    ];
    let actual: Vec<&str> = property_names(Owner::Job);
    assert_eq!(actual, expected);
}

#[test]
fn only_name_and_run_are_required_job_properties() {
    assert!(find("name").unwrap().required);
    assert!(find("run").unwrap().required);
    for spec in job_specs() {
        if spec.name != "name" && spec.name != "run" {
            assert!(!spec.required, "{} must be optional", spec.name);
        }
    }
}

#[test]
fn every_on_property_is_optional() {
    for spec in on_specs() {
        assert!(!spec.required, "{} must be optional", spec.name);
    }
}

#[test]
fn examples_are_nonempty_and_unique() {
    let jobs = job_specs();
    for spec in all_specs().iter().chain(jobs.iter()) {
        assert!(!spec.example.is_empty(), "{} has no example", spec.name);
        assert!(!spec.help.is_empty(), "{} has no help", spec.name);
    }
}

#[test]
fn enum_specs_carry_values_and_legal_schema_enum() {
    let jobs = job_specs();
    for spec in all_specs().iter().chain(jobs.iter()) {
        if let SpecKind::Enum(values) = spec.kind {
            assert!(spec.values.is_some(), "{} enum needs values text", spec.name);
            assert!(!values.is_empty(), "{} enum is empty", spec.name);
        }
    }
}

#[test]
fn find_searches_every_owner_and_reports_unknown_names() {
    assert_eq!(find("socket").unwrap().owner, Owner::On);
    assert_eq!(find("concurrency").unwrap().owner, Owner::Execution);
    assert_eq!(find("close").unwrap().owner, Owner::Hooks);
    assert!(find("no_such_property").is_none());
    assert!(is_optional(&find("debounce").unwrap()));
    assert!(!is_optional(&find("run").unwrap()));
    assert_eq!(execution_specs().len(), 4);
    assert_eq!(hook_specs().len(), 3);
    assert!(!root_specs().is_empty());
    assert_eq!(property_names(Owner::Root).len(), root_specs().len());
}
