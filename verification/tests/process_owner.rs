use funzzy::process_owner::{register, shutdown_signal, unregister, ShutdownSignal};

const OWNED_BY_THIS_TEST: i32 = 999_991;

#[test]
fn register_then_unregister_forgets_the_group() {
    let mut groups: Vec<i32> = Vec::new();
    register(&mut groups, OWNED_BY_THIS_TEST);
    assert!(groups.contains(&OWNED_BY_THIS_TEST), "register must track the group");

    unregister(&mut groups, OWNED_BY_THIS_TEST);
    assert!(!groups.contains(&OWNED_BY_THIS_TEST), "unregister must forget the group");
}

#[test]
fn register_is_idempotent() {
    let mut groups: Vec<i32> = Vec::new();
    register(&mut groups, OWNED_BY_THIS_TEST);
    register(&mut groups, OWNED_BY_THIS_TEST);
    let count = groups.iter().filter(|&&g| g == OWNED_BY_THIS_TEST).count();
    assert_eq!(count, 1, "registering twice must not duplicate");
    unregister(&mut groups, OWNED_BY_THIS_TEST);
    assert!(groups.is_empty());
}

#[test]
fn unregister_keeps_other_groups_in_order() {
    let mut groups: Vec<i32> = Vec::new();
    for g in [10, 20, 30, 20] {
        register(&mut groups, g);
    }
    assert_eq!(groups, vec![10, 20, 30]);
    unregister(&mut groups, 20);
    assert_eq!(groups, vec![10, 30]);
    unregister(&mut groups, 99);
    assert_eq!(groups, vec![10, 30]);
}

#[test]
fn shutdown_signal_accepts_supported_values_and_defaults_invalid_values() {
    assert_eq!(shutdown_signal(Some("INT")), ShutdownSignal::Int);
    assert_eq!(shutdown_signal(Some("sighup")), ShutdownSignal::Hup);
    assert_eq!(shutdown_signal(Some("QUIT")), ShutdownSignal::Quit);
    assert_eq!(shutdown_signal(Some("TERM")), ShutdownSignal::Term);
    assert_eq!(shutdown_signal(Some("not-a-signal")), ShutdownSignal::Term);
    assert_eq!(shutdown_signal(None), ShutdownSignal::Term);
    assert_eq!(shutdown_signal(Some("  SigQuit\n")), ShutdownSignal::Quit);
}
