use funzzy::watcher::{
    normalize_batch, swap_outcome, FileEvent, PollScanner, PollSnapshot, RootSwapPublisher,
    WatchBackend,
};

fn event(path: &str, continuous: bool) -> FileEvent {
    FileEvent {
        path: path.to_owned(),
        continuous,
    }
}

#[test]
fn backend_parse_validates_selection_and_interval() {
    assert_eq!(WatchBackend::parse(None, None).unwrap(), WatchBackend::Auto);
    assert_eq!(
        WatchBackend::parse(Some("native"), None).unwrap(),
        WatchBackend::Native
    );
    assert_eq!(
        WatchBackend::parse(Some("poll"), Some(200)).unwrap(),
        WatchBackend::Poll { interval_ms: 200 }
    );
    assert!(WatchBackend::parse(Some("bogus"), None).is_err());
}

#[test]
fn backend_parse_defaults_and_reports_the_bad_name() {
    assert_eq!(
        WatchBackend::parse(Some("poll"), None).unwrap(),
        WatchBackend::Poll { interval_ms: 500 }
    );
    assert_eq!(WatchBackend::parse(Some("auto"), Some(10)).unwrap(), WatchBackend::Auto);
    assert_eq!(
        WatchBackend::parse(Some("Native"), None).unwrap_err(),
        "invalid 'on.watch_backend' 'Native': expected native, poll, or auto"
    );
}

#[test]
fn disabled_publisher_errors_without_backend() {
    let publisher = RootSwapPublisher::disabled();
    let err = publisher
        .swap(vec!["/repo/src".to_owned()])
        .expect_err("disabled publisher must error");
    assert!(err.contains("without reload support"), "{err}");
}

#[test]
fn publisher_swap_errors_when_backend_never_acks() {
    let (tx, _rx) = std::sync::mpsc::channel();
    // Drop the receiver: the sender send fails immediately.
    drop(_rx);
    let publisher = RootSwapPublisher::new(tx);
    let err = publisher
        .swap(vec!["/repo/src".to_owned()])
        .expect_err("closed channel must error");
    assert!(err.contains("closed"), "{err}");
}

#[test]
fn swap_outcome_maps_channel_failures() {
    assert_eq!(swap_outcome(false, None), Err("root-swap channel closed".to_owned()));
    assert_eq!(
        swap_outcome(true, None),
        Err("root-swap acknowledgement timed out".to_owned())
    );
    assert_eq!(swap_outcome(true, Some(Ok(()))), Ok(()));
    assert_eq!(
        swap_outcome(true, Some(Err("no".to_owned()))),
        Err("no".to_owned())
    );
}

#[test]
fn batch_normalization_dedupes_sorts_and_keeps_kind() {
    let events = Some(vec![
        event("b.txt", true),
        event("a.txt", false),
        event("b.txt", false),
    ]);
    let (normalized, malformed) = normalize_batch(events);
    assert!(!malformed);
    assert_eq!(normalized, vec![event("a.txt", false), event("b.txt", true)]);
}

#[test]
fn malformed_window_yields_empty_batch() {
    let (normalized, malformed) = normalize_batch(None);
    assert!(malformed);
    assert!(normalized.is_empty());
}

#[test]
fn empty_window_yields_empty_batch() {
    let (normalized, malformed) = normalize_batch(Some(vec![]));
    assert!(!malformed);
    assert!(normalized.is_empty());
}

fn fact(path: &str, modified: Option<u64>) -> (String, PollSnapshot) {
    (path.to_owned(), PollSnapshot { modified })
}

fn paths(events: &[FileEvent]) -> Vec<&str> {
    events.iter().map(|e| e.path.as_str()).collect()
}

#[test]
fn poll_scanner_seeds_then_reports_changes_creations_and_removals() {
    let mut scanner = PollScanner::new(vec!["/root".to_owned()]);
    assert_eq!(scanner.watched(), ["/root"]);
    let first = scanner.scan(vec![fact("/root/a", Some(1)), fact("/root/b", Some(2))]);
    assert!(first.is_empty(), "first scan only seeds the baseline");
    let same = scanner.scan(vec![fact("/root/a", Some(1)), fact("/root/b", Some(2))]);
    assert!(same.is_empty());
    let next = scanner.scan(vec![fact("/root/a", Some(5)), fact("/root/c", Some(3))]);
    assert_eq!(paths(&next), ["/root/a", "/root/c", "/root/b"]);
    assert!(next.iter().all(|e| !e.continuous));
}

#[test]
fn swap_request_carries_the_complete_root_list() {
    let (tx, _rx) = std::sync::mpsc::channel();
    let request = funzzy::watcher::swap_request(vec!["/repo/src".to_owned(), "/repo/docs".to_owned()], tx);
    assert_eq!(request.roots, vec!["/repo/src".to_owned(), "/repo/docs".to_owned()]);
    assert!(request.ack.is_some());
}

#[test]
fn connected_swap_reports_a_closed_backend() {
    let (tx, rx) = std::sync::mpsc::channel();
    drop(rx);
    let publisher = RootSwapPublisher::new(tx);
    assert_eq!(
        publisher.swap(vec!["/repo".to_owned()]),
        Err("root-swap channel closed".to_owned())
    );
}
