use funzzy::environment::is_enabled_value;
use funzzy::errors::{FzzError, IoFailure, IoFailureKind};
use funzzy::stdout::{error_message, failure_header, info_message, warn_message};

const HINT: &str = "\x1b[34mHint\x1b[0m: ";

#[test]
fn io_config_error_hints_depend_on_the_kind() {
    let missing = FzzError::IoConfigError(
        "cannot open config".to_owned(),
        Some(IoFailure {
            kind: IoFailureKind::NotFound,
            reason: "No such file".to_owned(),
        }),
    );
    assert_eq!(
        missing.message(),
        format!("cannot open config\nReason: No such file\n{HINT}Check if the file exists and if the path is correct. Try `fzz init` to create a new configuration file")
    );
    let denied = FzzError::IoConfigError(
        "cannot write".to_owned(),
        Some(IoFailure {
            kind: IoFailureKind::PermissionDenied,
            reason: "denied".to_owned(),
        }),
    );
    assert!(denied
        .message()
        .ends_with("Check if you have permission to write in the current folder"));
    let other = FzzError::IoConfigError(
        "x".to_owned(),
        Some(IoFailure {
            kind: IoFailureKind::Other,
            reason: "disk".to_owned(),
        }),
    );
    assert_eq!(other.message(), "x\nReason: disk");
    assert_eq!(FzzError::IoConfigError("plain".to_owned(), None).message(), "plain");
}

#[test]
fn other_errors_render_reason_and_optional_hint() {
    assert_eq!(
        FzzError::IoStdinError("closed".to_owned(), None).message(),
        "Reason: closed"
    );
    assert_eq!(
        FzzError::IoStdinError("closed".to_owned(), Some("pipe it".to_owned())).message(),
        format!("Reason: closed\n{HINT}pipe it")
    );
    assert_eq!(
        FzzError::InvalidConfigError("bad".to_owned(), Some("line 3".to_owned()), None).message(),
        "bad\nReason: line 3"
    );
    assert_eq!(
        FzzError::InvalidConfigError("bad".to_owned(), None, Some("fix".to_owned())).message(),
        format!("bad\n{HINT}fix")
    );
    assert_eq!(
        FzzError::PathError("p".to_owned(), Some("gone".to_owned()), Some("h".to_owned())).message(),
        format!("p\nReason: gone\n{HINT}h")
    );
    assert_eq!(
        FzzError::PathPatternError("glob".to_owned(), None).message(),
        "glob"
    );
    assert_eq!(FzzError::GenericError("boom".to_owned()).message(), "Reason: boom");
}

#[test]
fn switches_are_on_for_one_or_true_only() {
    assert!(is_enabled_value(Some("1")));
    assert!(is_enabled_value(Some("true")));
    assert!(!is_enabled_value(Some("TRUE")));
    assert!(!is_enabled_value(Some("0")));
    assert!(!is_enabled_value(None));
}

#[test]
fn messages_are_prefixed_and_colored_on_request() {
    assert_eq!(info_message("Watching...", false), "Funzzy: Watching...");
    assert_eq!(
        info_message("Watching...", true),
        "\x1b[34mFunzzy\x1b[0m: Watching..."
    );
    assert_eq!(error_message("x", false), "Funzzy error: x");
    assert_eq!(error_message("x", true), "\x1b[31mFunzzy error\x1b[0m: x");
    assert_eq!(warn_message("w"), "Funzzy warning: w");
    assert_eq!(failure_header("t", true), "\x1b[31mError\x1b[0m: t");
    assert_eq!(failure_header("t", false), "Error: t");
}
