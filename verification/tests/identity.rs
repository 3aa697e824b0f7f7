use funzzy::identity::{AtomicSequence, Batch, BatchId, GenerationId};

#[test]
fn atomic_sequence_is_monotonic_and_never_reuses() {
    let mut sequence = AtomicSequence::new();
    let ids: Vec<u64> = (0..100).map(|_| sequence.next()).collect();
    for window in ids.windows(2) {
        assert!(window[0] < window[1], "ids must be strictly increasing");
    }
    assert_eq!(ids[0], 1, "sequences start at 1");
    assert_eq!(ids.len(), 100);
    // A fresh instance restarts the sequence.
    assert_eq!(AtomicSequence::new().next(), 1);
}

#[test]
fn batch_normalization_dedupes_and_sorts() {
    let batch = Batch::normalized(
        BatchId(3),
        vec!["b.txt".to_owned(), "a.txt".to_owned(), "b.txt".to_owned()],
    );
    assert_eq!(batch.changed, vec!["a.txt".to_owned(), "b.txt".to_owned()]);
    assert_eq!(batch.id, BatchId(3));
    assert!(!batch.is_empty());
}

#[test]
fn empty_batch_is_an_explicit_noop() {
    let batch = Batch::normalized(BatchId(1), vec![]);
    assert!(batch.is_empty());
    assert!(batch.changed.is_empty());
}

#[test]
fn batch_order_is_code_point_order() {
    let batch = Batch::normalized(
        BatchId(9),
        vec!["src/é.rs".to_owned(), "src/z.rs".to_owned(), "src/A.rs".to_owned()],
    );
    assert_eq!(batch.changed, vec!["src/A.rs", "src/z.rs", "src/é.rs"]);
    assert!(GenerationId(1) < GenerationId(2));
}
