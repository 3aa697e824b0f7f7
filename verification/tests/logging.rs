use funzzy::logging::sanitize;

#[test]
fn it_removes_ansi_escape_sequences() {
    let colored = "\x1b[31mFunzzy\x1b[0m: log";
    let sanitized = sanitize(colored);
    assert_eq!(sanitized, "Funzzy: log");
}

#[test]
fn it_returns_original_when_no_sequences() {
    let plain = "Funzzy: log";
    let sanitized = sanitize(plain);
    assert!(matches!(sanitized, std::borrow::Cow::Borrowed(_)));
}

#[test]
fn unterminated_sequence_runs_to_the_end() {
    assert_eq!(sanitize("ok\x1b[31"), "ok");
}

#[test]
fn escape_before_another_character_drops_only_the_escape() {
    assert_eq!(sanitize("a\x1bXb"), "aXb");
    assert_eq!(sanitize("é\x1b[1mü\x1b[0m"), "éü");
}
