//! Bounded run-duration history state: the versioned on-disk shape and the
//! decision that turns what was read from the state file into a recovered
//! history, a warning and a quarantine diagnostic. Reading the file and the
//! JSON decode are performed by the caller.
use vstd::prelude::*;

use crate::text::{decimal, decimal_string, owned};

verus! {

/// State schema version; unknown versions are quarantined.
pub const STATE_SCHEMA_VERSION: u64 = 1;

/// Absolute cap on profile count in one file (bounded allocation).
pub const MAX_PROFILES: usize = 10000;

/// Absolute cap on file size in bytes; oversized files are rejected before
/// they are decoded.
pub const MAX_STATE_BYTES: u64 = 67108864;

/// One stored duration profile.
#[derive(Clone, Debug, PartialEq, Eq)]
pub struct StoredProfile {
    pub signature: String,
    pub successes: Vec<u64>,
    pub failures: Vec<u64>,
    pub cancelled: usize,
    pub superseded: usize,
    pub timed_out: usize,
}

/// The versioned on-disk shape. `schema` must equal
/// [`STATE_SCHEMA_VERSION`]; the size, profile-count and retention bounds
/// are enforced again on load.
#[derive(Clone, Debug, PartialEq, Eq)]
pub struct StoredState {
    pub schema: u64,
    pub profiles: Vec<StoredProfile>,
}

/// The retention bounds of the duration history: how many success and
/// failure samples one profile may hold.
#[derive(Clone, Copy, Debug, PartialEq, Eq)]
pub struct RetentionBounds {
    pub successes: usize,
    pub failures: usize,
}

/// Whether a profile keeps within the retention bounds.
pub open spec fn within_retention(p: StoredProfile, b: RetentionBounds) -> bool {
    p.successes@.len() <= b.successes && p.failures@.len() <= b.failures
}

/// The first profile that breaks the retention bounds.
pub open spec fn first_over_retention(ps: Seq<StoredProfile>, b: RetentionBounds) -> Option<int>
    decreases ps.len(),
{
    if ps.len() == 0 {
        None
    } else {
        match first_over_retention(ps.drop_last(), b) {
            Some(i) => Some(i),
            None => if within_retention(ps.last(), b) {
                None
            } else {
                Some(ps.len() - 1)
            },
        }
    }
}

fn over_retention(ps: &Vec<StoredProfile>, b: RetentionBounds) -> (r: Option<usize>)
    ensures
        match r {
            Some(i) => first_over_retention(ps@, b) == Some(i as int) && i < ps@.len(),
            None => first_over_retention(ps@, b) is None,
        },
{
    let mut i: usize = 0;
    while i < ps.len()
        invariant
            i <= ps@.len(),
            first_over_retention(ps@.take(i as int), b) is None,
        decreases ps@.len() - i,
    {
        proof {
            assert(ps@.take(i + 1).drop_last() =~= ps@.take(i as int));
            assert(ps@.take(i + 1).last() == ps@[i as int]);
        }
        if ps[i].successes.len() > b.successes || ps[i].failures.len() > b.failures {
            proof {
                lemma_first_over_prefix(ps@, i as int + 1, b);
            }
            return Some(i);
        }
        i = i + 1;
    }
    assert(ps@.take(ps@.len() as int) =~= ps@);
    None
}

proof fn lemma_first_over_prefix(ps: Seq<StoredProfile>, n: int, b: RetentionBounds)
    requires
        0 < n <= ps.len(),
        first_over_retention(ps.take(n), b) is Some,
        first_over_retention(ps.take(n - 1), b) is None,
    ensures
        first_over_retention(ps, b) == first_over_retention(ps.take(n), b),
    decreases ps.len(),
{
    if n < ps.len() {
        assert(ps.drop_last().take(n) =~= ps.take(n));
        assert(ps.drop_last().take(n - 1) =~= ps.take(n - 1));
        lemma_first_over_prefix(ps.drop_last(), n, b);
    } else {
        assert(ps.take(n) =~= ps);
    }
}

/// What reading the state file gave.
#[derive(Clone, Debug, PartialEq, Eq)]
pub enum StateRead {
    /// No state file: a first run.
    Missing,
    /// The file exists but could not be read; the I/O error's text.
    Unreadable(String),
    /// The file was read: its size in bytes and, when the size is within
    /// the bound, the outcome of decoding it (the decoder's error text on
    /// failure). `None` when it was not decoded.
    Read { len: u64, decoded: Option<Result<StoredState, String>> },
}

/// The result of loading: the recovered profiles (empty when the file was
/// unusable), an optional one-line warning for the user, and the
/// diagnostic under which the unusable file is quarantined (renamed aside).
#[derive(Clone, Debug, PartialEq, Eq)]
pub struct LoadDecision {
    pub profiles: Vec<StoredProfile>,
    pub warning: Option<String>,
    pub quarantine: Option<String>,
}

/// Whether a state file of `len` bytes is decoded at all.
pub open spec fn within_state_bound(len: u64) -> bool {
    len <= MAX_STATE_BYTES
}

pub fn is_within_state_bound(len: u64) -> (r: bool)
    ensures
        r == within_state_bound(len),
{
    len <= MAX_STATE_BYTES
}

/// `duration history '<path>'`
pub open spec fn subject(path: Seq<char>) -> Seq<char> {
    "duration history '"@ + path + "'"@
}

/// The decision of [`load_outcome`] in terms of the path and what was read:
/// (recovered profiles, warning, quarantine diagnostic).
pub open spec fn load_spec(read: StateRead, path: Seq<char>, bounds: RetentionBounds) -> (
    Seq<StoredProfile>,
    Option<Seq<char>>,
    Option<Seq<char>>,
) {
    match read {
        StateRead::Missing => (Seq::empty(), None, None),
        StateRead::Unreadable(e) => (
            Seq::empty(),
            Some("funzzy: cannot read "@ + subject(path) + ": "@ + e@ + "; starting empty"@),
            None,
        ),
        StateRead::Read { len, decoded } => if !within_state_bound(len) {
            (
                Seq::empty(),
                Some("duration history oversized; recovered empty"@),
                Some(subject(path) + " exceeds 67108864 bytes; quarantined and starting empty"@),
            )
        } else {
            match decoded {
                None => (
                    Seq::empty(),
                    Some("duration history corrupt; recovered empty"@),
                    Some(subject(path) + " is corrupt (not decoded); quarantined and starting empty"@),
                ),
                Some(Err(e)) => (
                    Seq::empty(),
                    Some("duration history corrupt; recovered empty"@),
                    Some(subject(path) + " is corrupt ("@ + e@ + "); quarantined and starting empty"@),
                ),
                Some(Ok(stored)) => if stored.schema != STATE_SCHEMA_VERSION {
                    (
                        Seq::empty(),
                        Some(
                            "duration history schema version "@ + decimal(stored.schema as nat)
                                + " unsupported; recovered empty"@,
                        ),
                        Some(
                            subject(path) + " has schema version "@ + decimal(stored.schema as nat)
                                + " (expected 1); quarantined and starting empty"@,
                        ),
                    )
                } else if stored.profiles@.len() > MAX_PROFILES {
                    (
                        Seq::empty(),
                        Some("duration history profile count exceeds bound; recovered empty"@),
                        Some(
                            subject(path) + " has "@ + decimal(stored.profiles@.len())
                                + " profiles (limit 10000); quarantined and starting empty"@,
                        ),
                    )
                } else {
                    match first_over_retention(stored.profiles@, bounds) {
                        Some(i) => (
                            Seq::empty(),
                            Some("duration history violates retention bounds; recovered empty"@),
                            Some(
                                subject(path) + " violates retention bounds (profile '"@
                                    + stored.profiles@[i].signature@
                                    + "' exceeds its retention bound); quarantined and starting empty"@,
                            ),
                        ),
                        None => (stored.profiles@, None, None),
                    }
                },
            }
        },
    }
}

pub open spec fn opt_string_view(o: Option<String>) -> Option<Seq<char>> {
    match o {
        Some(s) => Some(s@),
        None => None,
    }
}

fn subject_string(path: &str) -> (r: String)
    ensures
        r@ == subject(path@),
{
    let mut s = owned("duration history '");
    s.append(path);
    s.append("'");
    s
}

/// Loads history from what was read. A missing file recovers empty without
/// a warning; an unreadable one recovers empty with a warning; an
/// oversized, corrupt, wrong-version or over-count file, or one with a
/// profile beyond the retention bounds, is quarantined with one warning and
/// empty recovery, so the watcher stays usable.
pub fn load_outcome(read: StateRead, path: &str, bounds: RetentionBounds) -> (r: LoadDecision)
    ensures
        (r.profiles@, opt_string_view(r.warning), opt_string_view(r.quarantine)) == load_spec(
            read,
            path@,
            bounds,
        ),
{
    proof {
        reveal_strlit("duration history '");
        reveal_strlit("'");
    }
    match read {
        StateRead::Missing => LoadDecision { profiles: Vec::new(), warning: None, quarantine: None },
        StateRead::Unreadable(e) => {
            let mut w = owned("funzzy: cannot read ");
            w.append(subject_string(path).as_str());
            w.append(": ");
            w.append(e.as_str());
            w.append("; starting empty");
            LoadDecision { profiles: Vec::new(), warning: Some(w), quarantine: None }
        },
        StateRead::Read { len, decoded } => {
            if !is_within_state_bound(len) {
                let mut q = subject_string(path);
                q.append(" exceeds 67108864 bytes; quarantined and starting empty");
                return LoadDecision {
                    profiles: Vec::new(),
                    warning: Some(owned("duration history oversized; recovered empty")),
                    quarantine: Some(q),
                };
            }
            match decoded {
                None => {
                    let mut q = subject_string(path);
                    q.append(" is corrupt (not decoded); quarantined and starting empty");
                    LoadDecision {
                        profiles: Vec::new(),
                        warning: Some(owned("duration history corrupt; recovered empty")),
                        quarantine: Some(q),
                    }
                },
                Some(Err(e)) => {
                    let mut q = subject_string(path);
                    q.append(" is corrupt (");
                    q.append(e.as_str());
                    q.append("); quarantined and starting empty");
                    LoadDecision {
                        profiles: Vec::new(),
                        warning: Some(owned("duration history corrupt; recovered empty")),
                        quarantine: Some(q),
                    }
                },
                Some(Ok(stored)) => {
                    if stored.schema != STATE_SCHEMA_VERSION {
                        let v = decimal_string(stored.schema);
                        let mut w = owned("duration history schema version ");
                        w.append(v.as_str());
                        w.append(" unsupported; recovered empty");
                        let mut q = subject_string(path);
                        q.append(" has schema version ");
                        q.append(v.as_str());
                        q.append(" (expected 1); quarantined and starting empty");
                        LoadDecision { profiles: Vec::new(), warning: Some(w), quarantine: Some(q) }
                    } else if stored.profiles.len() > MAX_PROFILES {
                        let n = decimal_string(stored.profiles.len() as u64);
                        let mut q = subject_string(path);
                        q.append(" has ");
                        q.append(n.as_str());
                        q.append(" profiles (limit 10000); quarantined and starting empty");
                        LoadDecision {
                            profiles: Vec::new(),
                            warning: Some(
                                owned("duration history profile count exceeds bound; recovered empty"),
                            ),
                            quarantine: Some(q),
                        }
                    } else {
                        match over_retention(&stored.profiles, bounds) {
                            Some(i) => {
                                let mut q = subject_string(path);
                                q.append(" violates retention bounds (profile '");
                                q.append(stored.profiles[i].signature.as_str());
                                q.append("' exceeds its retention bound); quarantined and starting empty");
                                LoadDecision {
                                    profiles: Vec::new(),
                                    warning: Some(
                                        owned("duration history violates retention bounds; recovered empty"),
                                    ),
                                    quarantine: Some(q),
                                }
                            },
                            None => LoadDecision {
                                profiles: stored.profiles,
                                warning: None,
                                quarantine: None,
                            },
                        }
                    }
                },
            }
        },
    }
}

/// The stored state of a read that is usable as it is: within the size
/// bound, decoded, of the current schema and within the profile bound.
pub open spec fn usable_state(read: StateRead, bounds: RetentionBounds) -> Option<StoredState> {
    match read {
        StateRead::Read { len, decoded: Some(Ok(stored)) } => if within_state_bound(len)
            && stored.schema == STATE_SCHEMA_VERSION && stored.profiles@.len() <= MAX_PROFILES
            && first_over_retention(stored.profiles@, bounds) is None {
            Some(stored)
        } else {
            None
        },
        _ => None,
    }
}

/// Loading never keeps part of an unusable file: it recovers every stored
/// profile of a usable file and nothing otherwise; a warning is given
/// exactly when the file existed but was unusable, and the file is
/// quarantined exactly when it was read but is unusable.
pub proof fn law_load_recovers_all_or_nothing(read: StateRead, path: Seq<char>, bounds: RetentionBounds)
    ensures
        load_spec(read, path, bounds).0 == match usable_state(read, bounds) {
            Some(stored) => stored.profiles@,
            None => Seq::<StoredProfile>::empty(),
        },
        load_spec(read, path, bounds).1 is Some <==> !(read is Missing || usable_state(read, bounds)
            is Some),
        load_spec(read, path, bounds).2 is Some <==> (read is Read && usable_state(read, bounds)
            is None),
        forall|k: int|
            0 <= k < load_spec(read, path, bounds).0.len() ==> within_retention(
                #[trigger] load_spec(read, path, bounds).0[k],
                bounds,
            ),
{
    if let Some(stored) = usable_state(read, bounds) {
        assert forall|k: int| 0 <= k < stored.profiles@.len() implies within_retention(
            #[trigger] stored.profiles@[k],
            bounds,
        ) by {
            lemma_none_over_means_within(stored.profiles@, bounds, k);
        }
    }
}

proof fn lemma_none_over_means_within(ps: Seq<StoredProfile>, b: RetentionBounds, k: int)
    requires
        first_over_retention(ps, b) is None,
        0 <= k < ps.len(),
    ensures
        within_retention(ps[k], b),
    decreases ps.len(),
{
    if k < ps.len() - 1 {
        lemma_none_over_means_within(ps.drop_last(), b, k);
    }
}

/// The state to persist, or why it is refused: more profiles than one file
/// may hold are never written.
pub open spec fn persist_spec(profiles: Seq<StoredProfile>) -> Result<Seq<StoredProfile>, Seq<char>> {
    if profiles.len() > MAX_PROFILES {
        Err("refusing to persist "@ + decimal(profiles.len()) + " profiles (limit 10000)"@)
    } else {
        Ok(profiles)
    }
}

pub fn persisted_state(profiles: Vec<StoredProfile>) -> (r: Result<StoredState, String>)
    ensures
        match (r, persist_spec(profiles@)) {
            (Ok(s), Ok(ps)) => s.schema == STATE_SCHEMA_VERSION && s.profiles@ == ps,
            (Err(m), Err(e)) => m@ == e,
            _ => false,
        },
{
    if profiles.len() > MAX_PROFILES {
        let mut m = owned("refusing to persist ");
        m.append(decimal_string(profiles.len() as u64).as_str());
        m.append(" profiles (limit 10000)");
        return Err(m);
    }
    Ok(StoredState { schema: STATE_SCHEMA_VERSION, profiles })
}

/// What is saved loads back unchanged: a profile list that may be persisted
/// and keeps within the retention bounds, once its persisted state is read
/// back whole from a file within the size bound, is recovered exactly, with
/// no warning and no quarantine.
pub proof fn law_saved_history_loads_back(
    profiles: Seq<StoredProfile>,
    len: u64,
    path: Seq<char>,
    bounds: RetentionBounds,
)
    requires
        persist_spec(profiles) is Ok,
        forall|k: int| 0 <= k < profiles.len() ==> within_retention(#[trigger] profiles[k], bounds),
        within_state_bound(len),
    ensures
        forall|s: StoredState|
            s.schema == STATE_SCHEMA_VERSION && #[trigger] s.profiles@ == profiles ==> load_spec(
                StateRead::Read { len, decoded: Some(Ok(s)) },
                path,
                bounds,
            ) == (profiles, None::<Seq<char>>, None::<Seq<char>>),
{
    lemma_all_within_means_none_over(profiles, bounds);
}

proof fn lemma_all_within_means_none_over(ps: Seq<StoredProfile>, b: RetentionBounds)
    requires
        forall|k: int| 0 <= k < ps.len() ==> within_retention(#[trigger] ps[k], b),
    ensures
        first_over_retention(ps, b) is None,
    decreases ps.len(),
{
    if ps.len() > 0 {
        assert forall|k: int| 0 <= k < ps.drop_last().len() implies within_retention(
            #[trigger] ps.drop_last()[k],
            b,
        ) by {
            assert(ps.drop_last()[k] == ps[k]);
        }
        lemma_all_within_means_none_over(ps.drop_last(), b);
        assert(within_retention(ps[ps.len() - 1], b));
    }
}

/// The name of the temporary file a save writes before renaming it over
/// the state file: the state file's name, hidden, with `.tmp`.
pub open spec fn temp_name_spec(file_name: Option<Seq<char>>) -> Seq<char> {
    "."@ + match file_name {
        Some(n) => n,
        None => "state"@,
    } + ".tmp"@
}

pub fn temp_file_name(file_name: Option<&str>) -> (r: String)
    ensures
        r@ == temp_name_spec(
            match file_name {
                Some(n) => Some(n@),
                None => None,
            },
        ),
{
    let mut m = owned(".");
    match file_name {
        Some(n) => m.append(n),
        None => m.append("state"),
    }
    m.append(".tmp");
    m
}

} // verus!
