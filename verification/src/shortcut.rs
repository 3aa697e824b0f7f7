//! Pure keyboard decoding and one-shot trigger policy for the watch loop.
use vstd::prelude::*;

verus! {

/// Ctrl-G is deliberately not Ctrl-C: SIGINT remains owned by the normal
/// shutdown path. It is a single byte in both raw terminals and pipes.
pub const TRIGGER_KEY: u8 = 0x07;

#[derive(Clone, Copy, Debug, PartialEq, Eq, Structural)]
pub enum KeyDecode {
    Trigger,
    Ignore,
    Partial,
    Eof,
}

/// The decoding of one input read.
pub open spec fn decode_spec(bytes: Seq<u8>, eof: bool) -> KeyDecode {
    if eof {
        KeyDecode::Eof
    } else if bytes == Seq::<u8>::empty() || bytes == seq![0x1bu8] || bytes == seq![0x1bu8, 0x5bu8] {
        KeyDecode::Partial
    } else if bytes == seq![TRIGGER_KEY] {
        KeyDecode::Trigger
    } else {
        KeyDecode::Ignore
    }
}

/// Decodes one input read without terminal or process side effects.
/// Empty non-EOF reads are retained as partial input for readers that
/// return short chunks; unknown bytes and unsupported escape sequences are
/// ignored.
pub fn decode_key(bytes: &[u8], eof: bool) -> (r: KeyDecode)
    ensures
        r == decode_spec(bytes@, eof),
{
    if eof {
        return KeyDecode::Eof;
    }
    if bytes.len() == 0 {
        assert(bytes@ =~= Seq::<u8>::empty());
        return KeyDecode::Partial;
    }
    if bytes.len() == 1 && bytes[0] == 0x1b {
        assert(bytes@ =~= seq![0x1bu8]);
        return KeyDecode::Partial;
    }
    if bytes.len() == 2 && bytes[0] == 0x1b && bytes[1] == 0x5b {
        assert(bytes@ =~= seq![0x1bu8, 0x5bu8]);
        return KeyDecode::Partial;
    }
    if bytes.len() == 1 && bytes[0] == TRIGGER_KEY {
        assert(bytes@ =~= seq![TRIGGER_KEY]);
        return KeyDecode::Trigger;
    }
    proof {
        if bytes@ == seq![0x1bu8] || bytes@ == seq![TRIGGER_KEY] {
            assert(bytes@.len() == 1 && bytes@[0] == bytes@[0]);
        }
        if bytes@ == seq![0x1bu8, 0x5bu8] {
            assert(bytes@[0] == 0x1b && bytes@[1] == 0x5b);
        }
    }
    KeyDecode::Ignore
}

/// Latches at most one shortcut request until the watch loop completes it.
#[derive(Clone, Copy, Debug, Default, PartialEq, Eq, Structural)]
pub struct TriggerLatch {
    pending: bool,
}

impl View for TriggerLatch {
    type V = bool;

    /// Whether a request is latched.
    closed spec fn view(&self) -> bool {
        self.pending
    }
}

/// Whether `accept` latches a request: only a trigger while none is
/// pending.
pub open spec fn accepts(pending: bool, decoded: KeyDecode) -> bool {
    decoded == KeyDecode::Trigger && !pending
}

impl TriggerLatch {
    /// A latch with no pending request.
    pub fn new() -> (r: Self)
        ensures
            !r@,
    {
        TriggerLatch { pending: false }
    }

    pub fn accept(&mut self, decoded: KeyDecode) -> (r: bool)
        ensures
            r == accepts(old(self)@, decoded),
            final(self)@ == (old(self)@ || r),
    {
        if decoded != KeyDecode::Trigger || self.pending {
            return false;
        }
        self.pending = true;
        true
    }

    pub fn reset(&mut self)
        ensures
            !final(self)@,
    {
        self.pending = false;
    }

    pub fn is_pending(&self) -> (r: bool)
        ensures
            r == self@,
    {
        self.pending
    }
}

/// Between two resets the latch accepts at most one request: once one is
/// accepted, every further key is refused and the request stays pending.
pub proof fn law_latch_accepts_once_until_reset(pending: bool, first: KeyDecode, second: KeyDecode)
    requires
        accepts(pending, first),
    ensures
        !accepts(pending || accepts(pending, first), second),
{
}

} // verus!
