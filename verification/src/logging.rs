//! The text that goes into the log file: terminal color sequences are
//! removed so the file stays readable. Opening and writing the file is done
//! by the caller.
use std::borrow::Cow;
use vstd::prelude::*;

use crate::text::{from_chars, to_chars};

verus! {

pub const ESCAPE: char = '\u{1b}';

/// `p` in front of a sanitized rest, when there is one.
pub open spec fn prepend(p: Seq<char>, rest: Option<Seq<char>>) -> Option<Seq<char>> {
    match rest {
        Some(r) => Some(p + r),
        None => None,
    }
}

/// The sanitized text of `s` from position `i`. Inside a sequence started
/// by ESC `[`, everything up to and including the next `m` is dropped (an
/// unterminated sequence runs to the end). An ESC followed by anything else
/// is dropped and the character after it kept as it is. `None` marks a text
/// whose last character is an ESC outside a sequence, which is refused.
pub open spec fn sanitize_from(s: Seq<char>, i: int, in_sequence: bool) -> Option<Seq<char>>
    decreases s.len() - i,
{
    if i < 0 || i >= s.len() {
        Some(Seq::empty())
    } else if in_sequence {
        sanitize_from(s, i + 1, s[i] != 'm')
    } else if s[i] == ESCAPE {
        if i + 1 >= s.len() {
            None
        } else if s[i + 1] == '[' {
            sanitize_from(s, i + 2, true)
        } else {
            prepend(seq![s[i + 1]], sanitize_from(s, i + 2, false))
        }
    } else {
        prepend(seq![s[i]], sanitize_from(s, i + 1, false))
    }
}

/// The sanitized text of a whole message.
pub open spec fn sanitize_spec(s: Seq<char>) -> Option<Seq<char>> {
    sanitize_from(s, 0, false)
}

proof fn lemma_no_escape_unchanged(s: Seq<char>, i: int)
    requires
        0 <= i <= s.len(),
        !s.contains(ESCAPE),
    ensures
        sanitize_from(s, i, false) == Some(s.subrange(i, s.len() as int)),
    decreases s.len() - i,
{
    if i < s.len() {
        assert(s[i] != ESCAPE) by {
            if s[i] == ESCAPE {
                assert(s.contains(ESCAPE));
            }
        }
        lemma_no_escape_unchanged(s, i + 1);
        assert(seq![s[i]] + s.subrange(i + 1, s.len() as int) =~= s.subrange(i, s.len() as int));
    } else {
        assert(s.subrange(i, s.len() as int) =~= Seq::<char>::empty());
    }
}

/// Removes terminal escape sequences. A message without ESC is handed back
/// as it is, without a copy.
pub fn sanitize(message: &str) -> (r: Cow<'_, str>)
    requires
        sanitize_spec(message@) is Some,
    ensures
        r@ == sanitize_spec(message@).unwrap(),
        !message@.contains(ESCAPE) ==> r is Borrowed,
{
    let s = to_chars(message);
    let mut has_escape = false;
    let mut k: usize = 0;
    while k < s.len()
        invariant
            k <= s@.len(),
            s@ == message@,
            has_escape <==> exists|j: int| 0 <= j < k && s@[j] == ESCAPE,
        decreases s@.len() - k,
    {
        if s[k] == ESCAPE {
            has_escape = true;
        }
        k = k + 1;
    }
    if !has_escape {
        proof {
            assert(!message@.contains(ESCAPE)) by {
                if message@.contains(ESCAPE) {
                    let j = choose|j: int| 0 <= j < message@.len() && message@[j] == ESCAPE;
                    assert(s@[j] == ESCAPE);
                }
            }
            lemma_no_escape_unchanged(message@, 0);
            assert(message@.subrange(0, message@.len() as int) =~= message@);
        }
        return Cow::Borrowed(message);
    }
    let mut out: Vec<char> = Vec::new();
    let mut i: usize = 0;
    let mut in_sequence = false;
    while i < s.len()
        invariant
            i <= s@.len(),
            s@ == message@,
            sanitize_spec(s@) == prepend(out@, sanitize_from(s@, i as int, in_sequence)),
            sanitize_spec(s@) is Some,
        decreases s@.len() - i,
    {
        if in_sequence {
            in_sequence = s[i] != 'm';
            i = i + 1;
        } else if s[i] == ESCAPE {
            if i + 1 < s.len() && s[i + 1] == '[' {
                in_sequence = true;
                i = i + 2;
            } else {
                proof {
                    if i + 1 >= s.len() {
                        assert(sanitize_from(s@, i as int, false) is None);
                    }
                }
                let c = s[i + 1];
                proof {
                    assert(out@.push(c) + sanitize_from(s@, i + 2, false).unwrap()
                        =~= out@ + (seq![c] + sanitize_from(s@, i + 2, false).unwrap()));
                }
                out.push(c);
                i = i + 2;
            }
        } else {
            let c = s[i];
            proof {
                assert(sanitize_from(s@, i + 1, false) is Some);
                assert(out@.push(c) + sanitize_from(s@, i + 1, false).unwrap()
                    =~= out@ + (seq![c] + sanitize_from(s@, i + 1, false).unwrap()));
            }
            out.push(c);
            i = i + 1;
        }
    }
    assert(out@ + Seq::<char>::empty() =~= out@);
    Cow::Owned(from_chars(&out))
}

/// Whether `sanitize` accepts the message: it does not end in an ESC that
/// opens nothing.
pub fn can_sanitize(message: &str) -> (r: bool)
    ensures
        r == (sanitize_spec(message@) is Some),
{
    let s = to_chars(message);
    let mut i: usize = 0;
    let mut in_sequence = false;
    while i < s.len()
        invariant
            i <= s@.len(),
            s@ == message@,
            (sanitize_spec(s@) is Some) == (sanitize_from(s@, i as int, in_sequence) is Some),
        decreases s@.len() - i,
    {
        if in_sequence {
            in_sequence = s[i] != 'm';
            i = i + 1;
        } else if s[i] == ESCAPE {
            if i + 1 >= s.len() {
                return false;
            }
            if s[i + 1] == '[' {
                in_sequence = true;
            }
            i = i + 2;
        } else {
            i = i + 1;
        }
    }
    true
}

} // verus!
