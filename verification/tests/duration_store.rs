use funzzy::duration_store::{
    is_within_state_bound, load_outcome, persisted_state, temp_file_name, LoadDecision,
    RetentionBounds, StateRead, StoredProfile, StoredState, MAX_PROFILES, MAX_STATE_BYTES,
    STATE_SCHEMA_VERSION,
};

const PATH: &str = "/state/run-durations-v1.json";

const BOUNDS: RetentionBounds = RetentionBounds { successes: 20, failures: 20 };

fn profile(signature: &str, successes: Vec<u64>) -> StoredProfile {
    StoredProfile {
        signature: signature.to_owned(),
        successes,
        failures: vec![],
        cancelled: 0,
        superseded: 0,
        timed_out: 0,
    }
}

fn decoded(state: StoredState) -> StateRead {
    StateRead::Read { len: 64, decoded: Some(Ok(state)) }
}

#[test]
fn missing_file_yields_empty_history_without_warning() {
    let outcome = load_outcome(StateRead::Missing, PATH, BOUNDS);
    assert!(outcome.warning.is_none());
    assert!(outcome.profiles.is_empty());
    assert!(outcome.quarantine.is_none());
}

#[test]
fn corrupt_file_is_quarantined_and_recovers_empty() {
    let outcome = load_outcome(
        StateRead::Read {
            len: 11,
            decoded: Some(Err("expected value at line 1 column 3".to_owned())),
        },
        PATH,
        BOUNDS,
    );
    assert!(outcome.warning.is_some());
    assert!(outcome.profiles.is_empty());
    assert_eq!(
        outcome.quarantine.as_deref(),
        Some(
            "duration history '/state/run-durations-v1.json' is corrupt (expected value at line 1 column 3); quarantined and starting empty"
        )
    );
    // After the quarantine the file no longer exists: a second load is a
    // plain first run.
    let second = load_outcome(StateRead::Missing, PATH, BOUNDS);
    assert!(second.warning.is_none());
}

#[test]
fn wrong_schema_version_is_quarantined() {
    let outcome = load_outcome(decoded(StoredState { schema: 999, profiles: vec![] }), PATH, BOUNDS);
    assert!(outcome.warning.is_some());
    assert!(outcome.warning.as_ref().unwrap().contains("schema version 999"));
    assert_eq!(
        outcome.warning.as_deref(),
        Some("duration history schema version 999 unsupported; recovered empty")
    );
    assert_eq!(
        outcome.quarantine.as_deref(),
        Some(
            "duration history '/state/run-durations-v1.json' has schema version 999 (expected 1); quarantined and starting empty"
        )
    );
}

#[test]
fn oversized_file_is_rejected_before_decode() {
    assert!(!is_within_state_bound(MAX_STATE_BYTES + 1));
    assert!(is_within_state_bound(MAX_STATE_BYTES));
    let outcome = load_outcome(
        StateRead::Read { len: MAX_STATE_BYTES + 1, decoded: None },
        PATH,
        BOUNDS,
    );
    assert!(outcome.warning.is_some());
    assert!(outcome.warning.as_ref().unwrap().contains("oversized"));
    assert_eq!(
        outcome.quarantine.as_deref(),
        Some(
            "duration history '/state/run-durations-v1.json' exceeds 67108864 bytes; quarantined and starting empty"
        )
    );
}

#[test]
fn truncated_valid_json_is_quarantined() {
    let outcome = load_outcome(
        StateRead::Read {
            len: 60,
            decoded: Some(Err("EOF while parsing a list at line 1 column 60".to_owned())),
        },
        PATH,
        BOUNDS,
    );
    assert!(outcome.warning.is_some());
    assert!(outcome.warning.as_ref().unwrap().contains("corrupt"));
}

#[test]
fn permission_failure_warns_and_recovers_empty() {
    let outcome = load_outcome(
        StateRead::Unreadable("Permission denied (os error 13)".to_owned()),
        PATH,
        BOUNDS,
    );
    assert!(outcome.warning.is_some());
    assert!(outcome.profiles.is_empty());
    assert_eq!(
        outcome.warning.as_deref(),
        Some(
            "funzzy: cannot read duration history '/state/run-durations-v1.json': Permission denied (os error 13); starting empty"
        )
    );
    assert!(outcome.quarantine.is_none());
}

#[test]
fn valid_state_recovers_every_profile() {
    let profiles = vec![profile("sig-1", vec![1_000, 2_000]), profile("sig-2", vec![])];
    let outcome = load_outcome(
        decoded(StoredState { schema: STATE_SCHEMA_VERSION, profiles: profiles.clone() }),
        PATH,
        BOUNDS,
    );
    assert_eq!(
        outcome,
        LoadDecision { profiles, warning: None, quarantine: None }
    );
}

#[test]
fn profile_count_over_the_bound_is_quarantined() {
    let profiles: Vec<StoredProfile> =
        (0..=MAX_PROFILES).map(|n| profile(&format!("sig-{n}"), vec![1])).collect();
    let outcome = load_outcome(
        decoded(StoredState { schema: STATE_SCHEMA_VERSION, profiles }),
        PATH,
        BOUNDS,
    );
    assert!(outcome.profiles.is_empty());
    assert_eq!(
        outcome.warning.as_deref(),
        Some("duration history profile count exceeds bound; recovered empty")
    );
    assert_eq!(
        outcome.quarantine.as_deref(),
        Some(
            "duration history '/state/run-durations-v1.json' has 10001 profiles (limit 10000); quarantined and starting empty"
        )
    );
}

#[test]
fn oversized_profile_snapshot_is_rejected_on_load() {
    let mut over = profile("sig-1", vec![0; BOUNDS.successes + 1]);
    over.failures = vec![];
    let outcome = load_outcome(
        decoded(StoredState { schema: STATE_SCHEMA_VERSION, profiles: vec![profile("sig-0", vec![1]), over] }),
        PATH,
        BOUNDS,
    );
    assert!(outcome.profiles.is_empty());
    assert_eq!(
        outcome.warning.as_deref(),
        Some("duration history violates retention bounds; recovered empty")
    );
    let quarantine = outcome.quarantine.expect("quarantined");
    assert!(quarantine.contains("retention bound"));
    assert_eq!(
        quarantine,
        "duration history '/state/run-durations-v1.json' violates retention bounds (profile 'sig-1' exceeds its retention bound); quarantined and starting empty"
    );
    let within = load_outcome(
        decoded(StoredState {
            schema: STATE_SCHEMA_VERSION,
            profiles: vec![profile("sig-2", vec![0; BOUNDS.successes])],
        }),
        PATH,
        BOUNDS,
    );
    assert_eq!(within.profiles.len(), 1);
    assert!(within.warning.is_none());
}

#[test]
fn save_rejects_oversized_profile_count() {
    let profiles: Vec<StoredProfile> =
        (0..=MAX_PROFILES).map(|n| profile(&format!("sig-{n}"), vec![1_000])).collect();
    let error = persisted_state(profiles).expect_err("must reject oversized state");
    assert!(error.contains("refusing to persist"));
    assert_eq!(error, "refusing to persist 10001 profiles (limit 10000)");
    let ok = persisted_state(vec![profile("sig-1", vec![1_000])]).expect("within the bound");
    assert_eq!(ok.schema, STATE_SCHEMA_VERSION);
    assert_eq!(ok.profiles.len(), 1);
}

#[test]
fn atomic_save_uses_a_hidden_temp_file_beside_the_state() {
    assert_eq!(temp_file_name(Some("run-durations-v1.json")), ".run-durations-v1.json.tmp");
    assert_eq!(temp_file_name(None), ".state.tmp");
}

#[test]
fn saved_history_loads_back_unchanged() {
    let profiles = vec![profile("sig-a", vec![1_000, 2_000]), profile("sig-b", vec![300])];
    let state = persisted_state(profiles.clone()).expect("within the bound");
    let outcome = load_outcome(decoded(state), PATH, BOUNDS);
    assert_eq!(outcome.profiles, profiles);
    assert!(outcome.warning.is_none());
    assert!(outcome.quarantine.is_none());
}
