use funzzy::shortcut::{decode_key, KeyDecode, TriggerLatch, TRIGGER_KEY};

#[test]
fn decodes_only_the_documented_single_key() {
    assert_eq!(decode_key(&[TRIGGER_KEY], false), KeyDecode::Trigger);
    assert_eq!(decode_key(b"x", false), KeyDecode::Ignore);
    assert_eq!(decode_key(&[0x1b], false), KeyDecode::Partial);
    assert_eq!(decode_key(&[0x1b, b'['], false), KeyDecode::Partial);
    assert_eq!(decode_key(&[0x1b, b'[', b'A'], false), KeyDecode::Ignore);
}

#[test]
fn empty_reads_are_partial_and_eof_is_terminal() {
    assert_eq!(decode_key(&[], false), KeyDecode::Partial);
    assert_eq!(decode_key(&[], true), KeyDecode::Eof);
}

#[test]
fn latch_accepts_one_trigger_until_reset() {
    let mut latch = TriggerLatch::default();
    assert!(latch.accept(KeyDecode::Trigger));
    assert!(!latch.accept(KeyDecode::Trigger));
    assert!(!latch.accept(KeyDecode::Ignore));
    assert!(latch.is_pending());
    latch.reset();
    assert!(latch.accept(KeyDecode::Trigger));
}

#[test]
fn trigger_key_is_ctrl_g_and_eof_wins() {
    assert_eq!(TRIGGER_KEY, 0x07);
    assert_eq!(decode_key(&[TRIGGER_KEY], true), KeyDecode::Eof);
    assert_eq!(decode_key(&[TRIGGER_KEY, TRIGGER_KEY], false), KeyDecode::Ignore);
    let mut latch = TriggerLatch::new();
    assert!(!latch.is_pending());
    assert!(!latch.accept(KeyDecode::Partial));
    assert!(!latch.is_pending());
}
