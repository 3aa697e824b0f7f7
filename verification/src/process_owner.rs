//! Ownership of child process groups. Each spawned task leads its own
//! process group; the registry tracks those groups so that every shutdown
//! path reaches the whole task tree through one ownership path. The
//! process-wide registry and the signalling live with the caller; this
//! module holds the registry's rules and the cancel-signal policy.
use vstd::prelude::*;

use crate::text::{to_chars, trim, trim_exec};

verus! {

/// Records a process group as owned. Idempotent: a group is held once.
pub fn register(groups: &mut Vec<i32>, pgid: i32)
    ensures
        final(groups)@ == (if old(groups)@.contains(pgid) {
            old(groups)@
        } else {
            old(groups)@.push(pgid)
        }),
{
    let mut i: usize = 0;
    while i < groups.len()
        invariant
            i <= groups@.len(),
            groups@ == old(groups)@,
            forall|k: int| 0 <= k < i ==> groups@[k] != pgid,
        decreases groups@.len() - i,
    {
        if groups[i] == pgid {
            return;
        }
        i = i + 1;
    }
    groups.push(pgid);
}

/// Forgets an owned process group, such as one that exited and was reaped.
pub fn unregister(groups: &mut Vec<i32>, pgid: i32)
    ensures
        final(groups)@ == old(groups)@.filter(|g: i32| g != pgid),
{
    let ghost s = groups@;
    let mut kept: Vec<i32> = Vec::new();
    let mut i: usize = 0;
    while i < groups.len()
        invariant
            i <= s.len(),
            groups@ == s,
            kept@ == s.take(i as int).filter(|g: i32| g != pgid),
        decreases s.len() - i,
    {
        if groups[i] != pgid {
            kept.push(groups[i]);
        }
        proof {
            assert(s.take(i + 1).drop_last() =~= s.take(i as int));
            reveal(Seq::filter);
        }
        i = i + 1;
    }
    assert(s.take(s.len() as int) =~= s);
    *groups = kept;
}

proof fn lemma_filter_keeps_no_duplicates(s: Seq<i32>, f: spec_fn(i32) -> bool)
    requires
        s.no_duplicates(),
    ensures
        s.filter(f).no_duplicates(),
    decreases s.len(),
{
    reveal(Seq::filter);
    if s.len() > 0 {
        let rest = s.drop_last();
        assert(rest.no_duplicates());
        lemma_filter_keeps_no_duplicates(rest, f);
        if f(s.last()) {
            let r = rest.filter(f);
            if r.contains(s.last()) {
                rest.lemma_filter_contains_rev(f, s.last());
                let k = choose|k: int| 0 <= k < rest.len() && rest[k] == s.last();
                assert(s[k] == s[s.len() - 1]);
            }
            let p = r.push(s.last());
            assert forall|i: int, j: int| 0 <= i < j < p.len() implies p[i] != p[j] by {
                if j == r.len() {
                    assert(r.contains(p[i]));
                }
            }
        }
    }
}

/// The registry holds each group at most once, whatever the sequence of
/// registrations and removals.
pub proof fn law_registry_holds_each_group_once(groups: Seq<i32>, pgid: i32)
    requires
        groups.no_duplicates(),
    ensures
        (if groups.contains(pgid) { groups } else { groups.push(pgid) }).no_duplicates(),
        groups.filter(|g: i32| g != pgid).no_duplicates(),
        !groups.filter(|g: i32| g != pgid).contains(pgid),
{
    let f = |g: i32| g != pgid;
    if !groups.contains(pgid) {
        let p = groups.push(pgid);
        assert forall|i: int, j: int| 0 <= i < j < p.len() implies p[i] != p[j] by {
            if j == groups.len() {
                assert(groups.contains(p[i]));
            }
        }
    }
    lemma_filter_keeps_no_duplicates(groups, f);
    if groups.filter(f).contains(pgid) {
        let k = choose|k: int| 0 <= k < groups.filter(f).len() && groups.filter(f)[k] == pgid;
        groups.lemma_filter_pred(f, k);
    }
}

/// The graceful cancel signal sent to owned groups at shutdown.
#[derive(Clone, Copy, Debug, PartialEq, Eq, Structural)]
pub enum ShutdownSignal {
    Int,
    Hup,
    Quit,
    Term,
}

/// The code of the ASCII upper case of one character.
pub open spec fn upper_code(c: char) -> u32 {
    if 'a' <= c && c <= 'z' {
        (c as u32 - 32) as u32
    } else {
        c as u32
    }
}

/// Whether the ASCII upper case of `s` is `lit`.
pub open spec fn upper_eq(s: Seq<char>, lit: Seq<char>) -> bool {
    s.len() == lit.len() && forall|k: int| 0 <= k < s.len() ==> upper_code(#[trigger] s[k]) == lit[k] as u32
}

/// The configured signal: a known name, with or without the `SIG` prefix,
/// in any ASCII case and surrounded by any whitespace; anything else, and no
/// value at all, means `SIGTERM`, so cleanup is never disabled.
pub open spec fn signal_spec(value: Option<Seq<char>>) -> ShutdownSignal {
    match value {
        None => ShutdownSignal::Term,
        Some(v) => {
            let t = trim(v);
            if upper_eq(t, "INT"@) || upper_eq(t, "SIGINT"@) {
                ShutdownSignal::Int
            } else if upper_eq(t, "HUP"@) || upper_eq(t, "SIGHUP"@) {
                ShutdownSignal::Hup
            } else if upper_eq(t, "QUIT"@) || upper_eq(t, "SIGQUIT"@) {
                ShutdownSignal::Quit
            } else {
                ShutdownSignal::Term
            }
        },
    }
}

/// Whether the ASCII upper case of `s` is `lit`.
fn upper_equals(s: &[char], lit: &str) -> (r: bool)
    ensures
        r == upper_eq(s@, lit@),
{
    let l = to_chars(lit);
    if s.len() != l.len() {
        return false;
    }
    let mut i: usize = 0;
    while i < s.len()
        invariant
            i <= s@.len(),
            s@.len() == l@.len(),
            l@ == lit@,
            forall|k: int| 0 <= k < i ==> upper_code(#[trigger] s@[k]) == l@[k] as u32,
        decreases s@.len() - i,
    {
        let c = s[i];
        let code: u32 = if 'a' <= c && c <= 'z' {
            (c as u32) - 32
        } else {
            c as u32
        };
        if code != (l[i] as u32) {
            assert(upper_code(s@[i as int]) != lit@[i as int] as u32);
            return false;
        }
        i = i + 1;
    }
    true
}

/// Parses the configured graceful-cancel signal.
pub fn shutdown_signal(value: Option<&str>) -> (r: ShutdownSignal)
    ensures
        r == signal_spec(match value {
            Some(v) => Some(v@),
            None => None,
        }),
{
    match value {
        None => ShutdownSignal::Term,
        Some(v) => {
            let chars = to_chars(v);
            let t = trim_exec(&chars);
            if upper_equals(&t, "INT") || upper_equals(&t, "SIGINT") {
                ShutdownSignal::Int
            } else if upper_equals(&t, "HUP") || upper_equals(&t, "SIGHUP") {
                ShutdownSignal::Hup
            } else if upper_equals(&t, "QUIT") || upper_equals(&t, "SIGQUIT") {
                ShutdownSignal::Quit
            } else {
                ShutdownSignal::Term
            }
        },
    }
}

/// Summary of one shutdown of every owned group.
#[derive(Clone, Copy, Debug, Default, PartialEq, Eq, Structural)]
pub struct ShutdownTally {
    /// Groups that terminated after the first signal, within the grace
    /// period.
    pub signaled: u32,
    /// Groups that had to be killed after the grace period.
    pub force_killed: u32,
}

} // verus!
