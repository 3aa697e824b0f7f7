//! Typed monotonic identities.
//!
//! Correlation fields are typed identities with defined lifetimes: event
//! batch, generation, task, and group occurrence. No identity is derived from
//! timestamps, command strings, or vector positions. All IDs are unique
//! within one watcher instance.
use vstd::prelude::*;

use crate::text::{
    chars_eq, lemma_lex_total, lemma_lex_transitive, lex_less, lex_lt, strictly_sorted, to_chars,
    views,
};

verus! {

/// Event batch identity: the maximal set of filesystem events coalesced by
/// debounce into one trigger. Monotonic within one watcher instance; the
/// complete normalized changed-path set rides along in [`Batch`].
#[derive(Clone, Copy, Debug, PartialEq, Eq, Hash, PartialOrd, Ord)]
pub struct BatchId(pub u64);

/// Generation identity: one scheduled run-plan execution. Monotonic within
/// one watcher instance and never reused after terminal outcome.
#[derive(Clone, Copy, Debug, PartialEq, Eq, Hash, PartialOrd, Ord)]
pub struct GenerationId(pub u64);

/// One normalized event batch: identity plus the complete changed-path set
/// (deduplicated and deterministically ordered).
#[derive(Clone, Debug, PartialEq, Eq)]
pub struct Batch {
    pub id: BatchId,
    pub changed: Vec<String>,
}

/// Inserts `p` into a strictly sorted list unless it is already present.
fn insert_sorted(out: &mut Vec<String>, p: &String)
    requires
        strictly_sorted(views(old(out)@)),
    ensures
        strictly_sorted(views(final(out)@)),
        views(final(out)@).to_set() == views(old(out)@).to_set().insert(p@),
{
    let pc = to_chars(p.as_str());
    let mut pos: usize = 0;
    let ghost vs = views(out@);
    while pos < out.len() && lex_less(&to_chars(out[pos].as_str()), &pc)
        invariant
            pos <= out@.len(),
            vs == views(out@),
            pc@ == p@,
            forall|k: int| 0 <= k < pos ==> lex_lt(#[trigger] vs[k], p@),
        decreases out@.len() - pos,
    {
        pos = pos + 1;
    }
    if pos < out.len() && chars_eq(&to_chars(out[pos].as_str()), &pc) {
        assert(views(out@).to_set() =~= views(out@).to_set().insert(p@)) by {
            assert(vs[pos as int] == p@);
        }
        return;
    }
    proof {
        if pos < out@.len() {
            lemma_lex_total(vs[pos as int], p@);
        }
        assert forall|k: int| pos <= k < vs.len() implies lex_lt(p@, #[trigger] vs[k]) by {
            if k > pos {
                lemma_lex_transitive(p@, vs[pos as int], vs[k]);
            }
        }
    }
    out.insert(pos, p.clone());
    proof {
        let nv = views(out@);
        assert(nv =~= vs.insert(pos as int, p@));
        assert forall|i: int, j: int| 0 <= i < j < nv.len() implies lex_lt(nv[i], nv[j]) by {
            if j < pos {
                assert(nv[i] == vs[i]);
                assert(nv[j] == vs[j]);
            } else if i < pos && j == pos {
            } else if i < pos && j > pos {
                assert(nv[j] == vs[j - 1]);
            } else if i == pos {
                assert(nv[j] == vs[j - 1]);
            } else {
                assert(nv[i] == vs[i - 1]);
                assert(nv[j] == vs[j - 1]);
            }
        }
        assert forall|x: Seq<char>| nv.to_set().contains(x) <==> vs.to_set().insert(p@).contains(
            x,
        ) by {
            if nv.contains(x) {
                let k = choose|k: int| 0 <= k < nv.len() && nv[k] == x;
                if k < pos {
                    assert(vs[k] == x);
                } else if k > pos {
                    assert(vs[k - 1] == x);
                }
            }
            if vs.contains(x) {
                let k = choose|k: int| 0 <= k < vs.len() && vs[k] == x;
                if k < pos {
                    assert(nv[k] == x);
                } else {
                    assert(nv[k + 1] == x);
                }
            }
            if x == p@ {
                assert(nv[pos as int] == x);
            }
        }
        assert(nv.to_set() =~= vs.to_set().insert(p@));
    }
}

/// The distinct strings of `v` in ascending order.
pub fn sorted_unique(v: &Vec<String>) -> (r: Vec<String>)
    ensures
        strictly_sorted(views(r@)),
        views(r@).to_set() == views(v@).to_set(),
{
    let mut out: Vec<String> = Vec::new();
    let mut i: usize = 0;
    while i < v.len()
        invariant
            i <= v@.len(),
            strictly_sorted(views(out@)),
            views(out@).to_set() == views(v@.take(i as int)).to_set(),
        decreases v@.len() - i,
    {
        insert_sorted(&mut out, &v[i]);
        proof {
            assert(views(v@.take(i + 1)) =~= views(v@.take(i as int)).push(v@[i as int]@));
            views(v@.take(i as int)).lemma_push_to_set_commute(v@[i as int]@);
        }
        i = i + 1;
    }
    assert(v@.take(v@.len() as int) =~= v@);
    out
}

impl Batch {
    /// Normalizes raw event paths into the deterministic changed-path set:
    /// deduplicated and lexicographically sorted. Empty input yields an
    /// empty batch (no scheduling decision).
    pub fn normalized(id: BatchId, paths: Vec<String>) -> (r: Self)
        ensures
            r.id == id,
            strictly_sorted(views(r.changed@)),
            views(r.changed@).to_set() == views(paths@).to_set(),
    {
        let mut changed: Vec<String> = Vec::new();
        let mut i: usize = 0;
        while i < paths.len()
            invariant
                i <= paths@.len(),
                strictly_sorted(views(changed@)),
                views(changed@).to_set() == views(paths@.take(i as int)).to_set(),
            decreases paths@.len() - i,
        {
            insert_sorted(&mut changed, &paths[i]);
            proof {
                assert(views(paths@.take(i + 1)) =~= views(paths@.take(i as int)).push(
                    paths@[i as int]@,
                ));
                views(paths@.take(i as int)).lemma_push_to_set_commute(paths@[i as int]@);
            }
            i = i + 1;
        }
        assert(paths@.take(paths@.len() as int) =~= paths@);
        Batch { id, changed }
    }

    pub fn is_empty(&self) -> (r: bool)
        ensures
            r == (self.changed@.len() == 0),
    {
        self.changed.len() == 0
    }
}

/// Monotonic sequence for instance-scoped IDs. Never reuses a value within
/// the owning watcher instance; a fresh sequence starts at 1.
pub struct AtomicSequence {
    issued: u64,
}

impl View for AtomicSequence {
    type V = nat;

    /// Number of values issued so far (the last one issued).
    closed spec fn view(&self) -> nat {
        self.issued as nat
    }
}

impl AtomicSequence {
    pub fn new() -> (r: Self)
        ensures
            r@ == 0,
    {
        AtomicSequence { issued: 0 }
    }

    /// Whether every value has been issued, so `next` has none left.
    pub fn is_exhausted(&self) -> (r: bool)
        ensures
            r == (self@ == u64::MAX),
    {
        self.issued == u64::MAX
    }

    /// Returns the next value in strict increasing order, starting at 1.
    pub fn next(&mut self) -> (r: u64)
        requires
            old(self)@ < u64::MAX,
        ensures
            r == old(self)@ + 1,
            final(self)@ == r,
    {
        self.issued = self.issued + 1;
        self.issued
    }
}

/// Issued values are exactly 1 to n: starting from a fresh sequence, the
/// run of `next` calls described by its contract (each returns one more
/// than the sequence's count before it and leaves the count there)
/// returns 1, 2, .., n in that order, so no value is ever issued twice.
pub proof fn law_sequence_issues_one_to_n(counts: Seq<nat>, issued: Seq<u64>)
    requires
        counts.len() == issued.len() + 1,
        counts[0] == 0,
        forall|i: int|
            0 <= i < issued.len() ==> #[trigger] issued[i] == counts[i] + 1 && counts[i + 1]
                == issued[i],
    ensures
        forall|i: int| 0 <= i < issued.len() ==> #[trigger] issued[i] == i + 1,
        forall|i: int, j: int| 0 <= i < j < issued.len() ==> issued[i] < issued[j],
    decreases issued.len(),
{
    if issued.len() > 0 {
        let n = issued.len() - 1;
        law_sequence_issues_one_to_n(counts.take(n + 1), issued.take(n));
        assert(issued[n] == counts[n] + 1);
        if n > 0 {
            assert(issued.take(n)[n - 1] == issued[n - 1]);
            assert(counts[n] == issued[n - 1]);
        }
        assert forall|i: int| 0 <= i < issued.len() implies #[trigger] issued[i] == i + 1 by {
            if i < n {
                assert(issued.take(n)[i] == issued[i]);
            }
        }
    }
}

} // verus!
