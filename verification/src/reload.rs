//! Config reload transaction vocabulary and the root-set diff that drives
//! prepare, commit and retire: added roots are registered before commit,
//! obsolete roots are retired after it.
use vstd::prelude::*;

use crate::reload_session::{paths_equal, same_path};
use crate::text::views;

verus! {

/// The four validation gates. `Operational` is reported by the caller
/// after trying to register resources; the first three are pure.
#[derive(Clone, Debug, PartialEq, Eq, Structural)]
pub enum ValidationGate {
    Syntactic,
    Schema,
    Semantic,
    Operational,
}

/// A fatal config error: the validation stage that failed plus the reason. Never leaves
/// old config running silently; the caller shuts down gracefully.
#[derive(Clone, Debug, PartialEq, Eq)]
pub struct ConfigError {
    pub gate: ValidationGate,
    pub reason: String,
}

/// The root sets to register (added) and retire (removed) around one
/// commit.
#[derive(Clone, Debug, Default, PartialEq, Eq)]
pub struct RootDiff {
    pub added: Vec<String>,
    pub removed: Vec<String>,
}

/// Whether `b` holds `r`: the same text, or a root equal to it as a path
/// (component-wise, as `PathBuf`'s `==`).
pub open spec fn holds_root(b: Seq<Seq<char>>, r: Seq<char>) -> bool {
    exists|k: int| 0 <= k < b.len() && same_root(b[k], r)
}

/// Two roots are the same when their texts are equal or they are equal as
/// paths.
pub open spec fn same_root(a: Seq<char>, b: Seq<char>) -> bool {
    a == b || paths_equal(a, b)
}

/// The roots of `a` that `b` does not hold, in the order of `a`.
pub open spec fn missing_from(a: Seq<Seq<char>>, b: Seq<Seq<char>>) -> Seq<Seq<char>> {
    a.filter(|r: Seq<char>| !holds_root(b, r))
}

fn contains_root(roots: &[String], root: &String) -> (r: bool)
    ensures
        r == holds_root(views(roots@), root@),
{
    let ghost vr = views(roots@);
    let mut i: usize = 0;
    while i < roots.len()
        invariant
            i <= roots@.len(),
            vr == views(roots@),
            forall|k: int| 0 <= k < i ==> !same_root(#[trigger] vr[k], root@),
        decreases roots@.len() - i,
    {
        if roots[i].eq(root) || same_path(&roots[i], root) {
            assert(same_root(vr[i as int], root@));
            return true;
        }
        i = i + 1;
    }
    false
}

/// Copies the roots of `a` that `b` does not hold, keeping the order of `a`.
fn roots_missing_from(a: &[String], b: &[String]) -> (r: Vec<String>)
    ensures
        views(r@) == missing_from(views(a@), views(b@)),
{
    let ghost va = views(a@);
    let ghost vb = views(b@);
    let mut out: Vec<String> = Vec::new();
    let mut i: usize = 0;
    while i < a.len()
        invariant
            i <= a@.len(),
            va == views(a@),
            vb == views(b@),
            views(out@) == va.take(i as int).filter(|r: Seq<char>| !holds_root(vb, r)),
        decreases a@.len() - i,
    {
        if !contains_root(b, &a[i]) {
            out.push(a[i].clone());
        }
        proof {
            let t = va.take(i + 1);
            assert(t.drop_last() =~= va.take(i as int));
            assert(t.last() == a@[i as int]@);
            reveal(Seq::filter);
            assert(views(out@) =~= t.filter(|r: Seq<char>| !holds_root(vb, r)));
        }
        i = i + 1;
    }
    assert(va.take(a@.len() as int) =~= va);
    out
}

/// Deterministic root-set diff for prepare, commit and retire. Inputs are
/// containment-minimized root lists, so the diff is a set difference with
/// stable ordering; two roots are the same when they are equal as paths.
pub fn root_diff(old_roots: &[String], new_roots: &[String]) -> (r: RootDiff)
    ensures
        views(r.added@) == missing_from(views(new_roots@), views(old_roots@)),
        views(r.removed@) == missing_from(views(old_roots@), views(new_roots@)),
        views(old_roots@) == views(new_roots@) ==> r.added@.len() == 0 && r.removed@.len() == 0,
{
    proof {
        law_root_diff_transforms_old_into_new(views(old_roots@), views(new_roots@));
    }
    RootDiff {
        added: roots_missing_from(new_roots, old_roots),
        removed: roots_missing_from(old_roots, new_roots),
    }
}

/// A root is among those of `a` missing from `b` exactly when `a` holds it
/// and `b` holds no root equal to it.
proof fn lemma_filter_membership(a: Seq<Seq<char>>, b: Seq<Seq<char>>, x: Seq<char>)
    ensures
        missing_from(a, b).contains(x) <==> (a.contains(x) && !holds_root(b, x)),
{
    let f = |r: Seq<char>| !holds_root(b, r);
    if missing_from(a, b).contains(x) {
        a.lemma_filter_contains_rev(f, x);
        let k = choose|k: int| 0 <= k < a.filter(f).len() && a.filter(f)[k] == x;
        a.lemma_filter_pred(f, k);
    }
    if a.contains(x) && !holds_root(b, x) {
        let k = choose|k: int| 0 <= k < a.len() && a[k] == x;
        a.lemma_filter_contains(f, k);
    }
}

/// Registering the added roots and retiring the removed ones turns the old
/// root set into the new one: every new root is either added or already
/// held by the old set, every old root is either retired or still held by
/// the new set, and nothing else is added or retired. When the two lists
/// hold the same roots, the diff is empty; in particular a root list
/// diffed with itself is empty.
pub proof fn law_root_diff_transforms_old_into_new(old: Seq<Seq<char>>, new: Seq<Seq<char>>)
    ensures
        forall|x: Seq<char>|
            #![trigger missing_from(new, old).contains(x)]
            missing_from(new, old).contains(x) <==> (new.contains(x) && !holds_root(old, x)),
        forall|x: Seq<char>|
            #![trigger missing_from(old, new).contains(x)]
            missing_from(old, new).contains(x) <==> (old.contains(x) && !holds_root(new, x)),
        (forall|x: Seq<char>| new.contains(x) ==> holds_root(old, x)) && (forall|x: Seq<char>|
            old.contains(x) ==> holds_root(new, x)) ==> missing_from(new, old).len() == 0
            && missing_from(old, new).len() == 0,
        missing_from(old, old).len() == 0,
{
    assert forall|x: Seq<char>| old.contains(x) implies holds_root(old, x) by {
        let k = choose|k: int| 0 <= k < old.len() && old[k] == x;
        assert(same_root(old[k], x));
    }
    assert forall|x: Seq<char>| missing_from(old, old).contains(x) implies false by {
        lemma_filter_membership(old, old, x);
    }
    if missing_from(old, old).len() > 0 {
        assert(missing_from(old, old).contains(missing_from(old, old)[0]));
    }
    let added = missing_from(new, old);
    let removed = missing_from(old, new);
    assert forall|x: Seq<char>| added.contains(x) <==> (new.contains(x) && !holds_root(old, x)) by {
        lemma_filter_membership(new, old, x);
    }
    assert forall|x: Seq<char>| removed.contains(x) <==> (old.contains(x) && !holds_root(new, x)) by {
        lemma_filter_membership(old, new, x);
    }
    if (forall|x: Seq<char>| new.contains(x) ==> holds_root(old, x)) && (forall|x: Seq<char>|
        old.contains(x) ==> holds_root(new, x)) {
        if added.len() > 0 {
            assert(added.contains(added[0]));
        }
        if removed.len() > 0 {
            assert(removed.contains(removed[0]));
        }
    }
}

} // verus!
