use funzzy::reload::{root_diff, ConfigError, RootDiff, ValidationGate};

fn owned(v: &[&str]) -> Vec<String> {
    v.iter().map(|s| (*s).to_owned()).collect()
}

#[test]
fn root_diff_adds_removes_and_keeps_stable_order() {
    let old = owned(&["/repo/src", "/repo/tests"]);
    let new = owned(&["/repo/src", "/repo/docs"]);
    let diff = root_diff(&old, &new);
    assert_eq!(diff.added, owned(&["/repo/docs"]));
    assert_eq!(diff.removed, owned(&["/repo/tests"]));
}

#[test]
fn root_diff_noop_when_sets_identical() {
    let roots = owned(&["/repo/src", "/repo/tests"]);
    let diff = root_diff(&roots, &roots);
    assert!(diff.added.is_empty());
    assert!(diff.removed.is_empty());
}

#[test]
fn root_diff_empty_old_adds_all_and_vice_versa() {
    let new = owned(&["/repo/src"]);
    assert_eq!(
        root_diff(&[], &new),
        RootDiff {
            added: new.clone(),
            removed: vec![],
        }
    );
    assert_eq!(
        root_diff(&new, &[]),
        RootDiff {
            added: vec![],
            removed: new,
        }
    );
}

#[test]
fn root_diff_keeps_the_order_of_each_side() {
    let old = owned(&["/w/a", "/w/b", "/w/c"]);
    let new = owned(&["/w/e", "/w/b", "/w/d"]);
    let diff = root_diff(&old, &new);
    assert_eq!(diff.added, owned(&["/w/e", "/w/d"]));
    assert_eq!(diff.removed, owned(&["/w/a", "/w/c"]));
    let error = ConfigError {
        gate: ValidationGate::Schema,
        reason: "unknown key".to_owned(),
    };
    assert_eq!(error.gate, ValidationGate::Schema);
}

#[test]
fn root_diff_compares_roots_as_paths() {
    let old = owned(&["/repo/src", "/repo/tests"]);
    let new = owned(&["/repo/src/", "/repo//tests"]);
    let diff = root_diff(&old, &new);
    assert!(diff.added.is_empty());
    assert!(diff.removed.is_empty());
}
