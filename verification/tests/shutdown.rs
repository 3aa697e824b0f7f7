use funzzy::shutdown::{
    CloseHookOutcome, FinishStep, Phase, ReapGate, ReapPhase, ShutdownCompletion, ShutdownReason,
    ShutdownState,
};

fn signal(name: &'static str) -> ShutdownReason {
    ShutdownReason::Signal {
        name,
        exit_code: 130,
    }
}

#[test]
fn reasons_carry_exit_codes_and_labels() {
    assert_eq!(ShutdownReason::Normal.exit_code(), 0);
    assert_eq!(ShutdownReason::Normal.label(), "normal");
    assert_eq!(signal("SIGINT").exit_code(), 130);
    assert_eq!(signal("SIGINT").label(), "SIGINT");
    let fatal = ShutdownReason::FatalConfig {
        detail: "bad yaml".to_owned(),
        exit_code: 2,
    };
    assert_eq!(fatal.exit_code(), 2);
    assert_eq!(fatal.label(), "configInvalid: bad yaml");
    let op = ShutdownReason::Operational {
        detail: "socket".to_owned(),
        exit_code: 3,
    };
    assert_eq!(op.label(), "operational: socket");
}

#[test]
fn first_request_freezes_reason_and_committed_hook() {
    let mut state = ShutdownState::new(Some("echo bye".to_owned()));
    state.mark_ready();
    assert_eq!(state.request(signal("SIGTERM")), (true, false));
    state.update_hooks(Some("echo later".to_owned()));
    assert_eq!(state.request(signal("SIGINT")), (false, true));
    assert_eq!(state.request(ShutdownReason::Normal), (false, false));
    match state.begin_finish() {
        FinishStep::Proceed {
            requested,
            skipped_before_ready,
        } => {
            assert_eq!(requested.reason, signal("SIGTERM"));
            assert_eq!(requested.hook, Some("echo bye".to_owned()));
            assert!(!skipped_before_ready);
        }
        _ => panic!("first finisher proceeds"),
    }
    assert!(matches!(state.begin_finish(), FinishStep::Wait));
    let completion = ShutdownCompletion {
        reason: signal("SIGTERM"),
        hook: CloseHookOutcome::Passed,
    };
    state.complete(CloseHookOutcome::Passed);
    match state.begin_finish() {
        FinishStep::Done(done) => assert_eq!(done, completion),
        _ => panic!("later finishers receive the completion"),
    }
    assert!(matches!(state.phase, Phase::Finished(_)));
}

#[test]
fn configured_hook_is_skipped_before_watcher_readiness() {
    let mut state = ShutdownState::new(Some("echo bye".to_owned()));
    match state.begin_finish() {
        FinishStep::Proceed {
            requested,
            skipped_before_ready,
        } => {
            assert_eq!(requested.reason, ShutdownReason::Normal);
            assert_eq!(requested.hook, None);
            assert!(skipped_before_ready);
        }
        _ => panic!("first finisher proceeds"),
    }
    assert!(!state.ready);
    state.mark_ready();
    assert!(!state.ready, "readiness is recorded only while running");
}

#[test]
fn every_finisher_receives_the_first_requested_reason() {
    let mut state = ShutdownState::new(Some("echo bye".to_owned()));
    state.mark_ready();
    state.request(signal("SIGTERM"));
    state.request(ShutdownReason::Normal);
    assert!(matches!(state.begin_finish(), FinishStep::Proceed { .. }));
    state.complete(CloseHookOutcome::Failed("exit 1".to_owned()));
    for _ in 0..3 {
        match state.begin_finish() {
            FinishStep::Done(done) => {
                assert_eq!(done.reason, signal("SIGTERM"));
                assert_eq!(done.reason.exit_code(), 130);
            }
            _ => panic!("finished"),
        }
    }
    let requested = funzzy::shutdown::Requested { reason: signal("SIGINT"), hook: None };
    assert_eq!(
        funzzy::shutdown::completion_for(&requested, CloseHookOutcome::Passed),
        ShutdownCompletion { reason: signal("SIGINT"), hook: CloseHookOutcome::Passed }
    );
}

#[test]
fn reap_is_claimed_once_and_waiters_see_it_finish() {
    let mut gate = ReapGate::new();
    assert!(!gate.must_wait());
    // The signal thread's request claims the reap first.
    assert!(gate.claim());
    // A concurrent finisher is denied and waits for the running reap.
    assert!(!gate.claim());
    assert!(gate.must_wait());
    gate.finish();
    assert_eq!(gate.phase, ReapPhase::Done);
    assert!(!gate.must_wait());
    // Later finishers never reap again.
    assert!(!gate.claim());
    assert_eq!(gate.phase, ReapPhase::Done);
}
