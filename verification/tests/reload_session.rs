use funzzy::reload_session::{changed_config_path, config_watch_roots};
use funzzy::watcher::FileEvent;

fn event(path: &str) -> FileEvent {
    FileEvent {
        path: path.to_owned(),
        continuous: false,
    }
}

#[test]
fn watch_roots_are_parent_directories_in_stable_order() {
    let paths = vec![
        "/workspace/z/.watch.yaml".to_owned(),
        "/workspace/a/.watch.yml".to_owned(),
        "/workspace/z/other.yaml".to_owned(),
    ];

    assert_eq!(
        config_watch_roots(&paths),
        vec!["/workspace/a".to_owned(), "/workspace/z".to_owned()]
    );
}

#[test]
fn bare_file_names_have_no_root() {
    let paths = vec![".watch.yaml".to_owned(), "/w/x/.watch.yaml".to_owned()];
    assert_eq!(config_watch_roots(&paths), vec!["/w/x".to_owned()]);
}

#[test]
fn changed_path_selects_only_configured_file() {
    let events = vec![event("/workspace/src/main.rs"), event("/workspace/.watch.yaml")];

    assert_eq!(
        changed_config_path(&events, &[None, None], &["/workspace/.watch.yaml".to_owned()]),
        "/workspace/.watch.yaml"
    );
}

#[test]
fn changed_path_is_empty_for_unrelated_events() {
    let events = vec![event("/workspace/src/main.rs")];

    assert!(
        changed_config_path(&events, &[None], &["/workspace/.watch.yaml".to_owned()]).is_empty()
    );
}

#[test]
fn changed_path_matches_suffix_and_canonical_forms() {
    let events = vec![event("/private/tmp/w/.watch.yaml")];
    assert_eq!(
        changed_config_path(&events, &[None], &["w/.watch.yaml".to_owned()]),
        "/private/tmp/w/.watch.yaml"
    );
    let events = vec![event("./link/.watch.yaml")];
    assert_eq!(
        changed_config_path(
            &events,
            &[Some("/real/.watch.yaml".to_owned())],
            &["/real/.watch.yaml".to_owned()]
        ),
        "./link/.watch.yaml"
    );
}

use funzzy::reload::{ConfigError, ValidationGate};
use funzzy::reload_session::{
    socket_changed, truncate_notice, ConfigBaselines, ReloadAction, ReloadDecision, ReloadEvent,
    ReloadPhase, ReloadTransaction,
};

#[test]
fn config_replays_are_ignored_until_the_file_changes() {
    let mut baselines = ConfigBaselines { entries: vec![] };
    let path = ".watch.yaml".to_owned();
    assert!(baselines.observe(&path, Some(10)));
    assert!(!baselines.observe(&path, Some(10)));
    assert!(baselines.observe(&path, Some(11)));
    assert!(baselines.observe(&path, None));
    assert!(!baselines.observe(&path, Some(11)));
}

#[test]
fn valid_semantic_change_commits_after_every_gate() {
    let mut txn = ReloadTransaction::new(true);
    assert_eq!(txn.step(ReloadEvent::FileChanged { modified: true }), ReloadAction::ReadContent);
    assert_eq!(txn.step(ReloadEvent::ContentRead(Ok(()))), ReloadAction::Decide);
    assert_eq!(
        txn.step(ReloadEvent::Decided(ReloadDecision::Commit(4))),
        ReloadAction::Build { revision: 4 }
    );
    assert_eq!(txn.step(ReloadEvent::CandidateBuilt(Ok(true))), ReloadAction::BindSocket);
    assert_eq!(txn.step(ReloadEvent::SocketBound(Ok(()))), ReloadAction::Prepare);
    assert_eq!(txn.step(ReloadEvent::Prepared(Ok(()))), ReloadAction::Commit);
    assert_eq!(
        txn.step(ReloadEvent::Committed(Ok(()))),
        ReloadAction::Finish {
            truncate_log: true,
            notice: "Config change is valid; hot-reloading to revision 4.".to_owned(),
        }
    );
    assert_eq!(txn.phase, ReloadPhase::Idle);
}

#[test]
fn invalid_or_unchanged_config_never_commits() {
    let mut txn = ReloadTransaction::new(false);
    assert_eq!(txn.step(ReloadEvent::FileChanged { modified: false }), ReloadAction::Ignore);
    txn.step(ReloadEvent::FileChanged { modified: true });
    txn.step(ReloadEvent::ContentRead(Ok(())));
    assert_eq!(
        txn.step(ReloadEvent::Decided(ReloadDecision::NoOp)),
        ReloadAction::Inform("Config save has no semantic change; nothing to reload.".to_owned())
    );
    txn.step(ReloadEvent::FileChanged { modified: true });
    txn.step(ReloadEvent::ContentRead(Ok(())));
    assert_eq!(
        txn.step(ReloadEvent::Decided(ReloadDecision::Fatal(ConfigError {
            gate: ValidationGate::Semantic,
            reason: "unknown key".to_owned(),
        }))),
        ReloadAction::Fatal("invalid config (semantics): unknown key".to_owned())
    );
    txn.step(ReloadEvent::FileChanged { modified: true });
    assert_eq!(
        txn.step(ReloadEvent::ContentRead(Err("No such file".to_owned()))),
        ReloadAction::Fatal("config unreadable after change: No such file".to_owned())
    );
    assert_eq!(txn.step(ReloadEvent::Prepared(Ok(()))), ReloadAction::Ignore);
}

#[test]
fn prepare_and_commit_failures_are_fatal() {
    let mut txn = ReloadTransaction::new(false);
    txn.step(ReloadEvent::FileChanged { modified: true });
    txn.step(ReloadEvent::ContentRead(Ok(())));
    txn.step(ReloadEvent::Decided(ReloadDecision::Commit(2)));
    txn.step(ReloadEvent::CandidateBuilt(Ok(false)));
    assert_eq!(
        txn.step(ReloadEvent::Prepared(Err("root busy".to_owned()))),
        ReloadAction::Fatal("reload prepare failed: root busy".to_owned())
    );
}

#[test]
fn socket_moves_and_truncate_notices() {
    assert!(!socket_changed(&None, &None));
    assert!(socket_changed(&None, &Some("/tmp/a.sock".to_owned())));
    assert!(!socket_changed(&Some("/tmp/a.sock".to_owned()), &Some("/tmp//a.sock".to_owned())));
    assert!(socket_changed(&Some("/tmp/a.sock".to_owned()), &Some("/tmp/b.sock".to_owned())));
    assert_eq!(truncate_notice(&Ok(())), "Log file truncated before reloading configuration.");
    assert_eq!(truncate_notice(&Err("denied".to_owned())), "Failed to truncate log file: denied");
}
