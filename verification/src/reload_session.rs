//! The config-reload session's filtering: which directories to watch for
//! the configuration files, and which event of a batch is a change of one
//! of them. Watching, reading and validating are driven by the caller.
use vstd::prelude::*;

use crate::reload::{ConfigError, ValidationGate};
use crate::text::{chars_eq, decimal, decimal_string, owned, slice_chars, to_chars, views};
use crate::watcher::FileEvent;

verus! {

/// Startup settings of a reload session. The debounce window is in
/// milliseconds.
#[derive(Clone, Debug, PartialEq, Eq)]
pub struct ReloadSettings {
    pub config_file_paths: Vec<String>,
    pub debounce_ms: u64,
    pub truncate_on_config_change: bool,
    pub current_socket: Option<String>,
}

/// The parent of a path as `std::path::Path::parent` computes it.
pub uninterp spec fn parent_path(p: Seq<char>) -> Option<Seq<char>>;

/// The order `std::path::PathBuf`'s sort gives a list of paths.
pub uninterp spec fn path_sorted(v: Seq<Seq<char>>) -> Seq<Seq<char>>;

/// Whether two paths are equal as `std::path::PathBuf`s (component-wise).
pub uninterp spec fn paths_equal(a: Seq<char>, b: Seq<char>) -> bool;

/// `Path::parent`, rendered back as text.
#[verifier::external_body]
fn path_parent(p: &String) -> (r: Option<String>)
    ensures
        match r {
            Some(q) => parent_path(p@) == Some(q@),
            None => parent_path(p@) is None,
        },
{
    std::path::Path::new(p).parent().map(|q| q.display().to_string())
}

/// Sorts paths as `PathBuf`s (`slice::sort`, by components).
#[verifier::external_body]
fn sort_as_paths(v: Vec<String>) -> (r: Vec<String>)
    ensures
        views(r@) == path_sorted(views(v@)),
{
    let mut paths: Vec<std::path::PathBuf> = v.into_iter().map(std::path::PathBuf::from).collect();
    paths.sort();
    paths.into_iter().map(|p| p.display().to_string()).collect()
}

/// `PathBuf == PathBuf`.
#[verifier::external_body]
pub(crate) fn same_path(a: &String, b: &String) -> (r: bool)
    ensures
        r == paths_equal(a@, b@),
{
    std::path::Path::new(a) == std::path::Path::new(b)
}

/// The non-empty parents of the configuration files, in order.
pub open spec fn config_parents(paths: Seq<Seq<char>>) -> Seq<Seq<char>>
    decreases paths.len(),
{
    if paths.len() == 0 {
        Seq::empty()
    } else {
        let rest = config_parents(paths.drop_last());
        match parent_path(paths.last()) {
            Some(q) => if q.len() > 0 {
                rest.push(q)
            } else {
                rest
            },
            None => rest,
        }
    }
}

/// Consecutive equal paths collapsed to the first (as `Vec::dedup`).
pub open spec fn dedup_paths(v: Seq<Seq<char>>) -> Seq<Seq<char>>
    decreases v.len(),
{
    if v.len() == 0 {
        Seq::empty()
    } else {
        let rest = dedup_paths(v.drop_last());
        if rest.len() > 0 && paths_equal(v.last(), rest.last()) {
            rest
        } else {
            rest.push(v.last())
        }
    }
}

/// The directories to watch for the configuration files: their parents,
/// sorted and without repetition; a bare file name has no parent to watch.
pub open spec fn config_watch_roots_spec(paths: Seq<Seq<char>>) -> Seq<Seq<char>> {
    dedup_paths(path_sorted(config_parents(paths)))
}

pub fn config_watch_roots(config_paths: &[String]) -> (r: Vec<String>)
    ensures
        views(r@) == config_watch_roots_spec(views(config_paths@)),
{
    let ghost cp = views(config_paths@);
    let mut parents: Vec<String> = Vec::new();
    let mut i: usize = 0;
    while i < config_paths.len()
        invariant
            i <= config_paths@.len(),
            cp == views(config_paths@),
            views(parents@) == config_parents(cp.take(i as int)),
        decreases config_paths@.len() - i,
    {
        proof {
            assert(cp.take(i + 1).drop_last() =~= cp.take(i as int));
        }
        match path_parent(&config_paths[i]) {
            Some(q) => {
                if to_chars(q.as_str()).len() > 0 {
                    parents.push(q);
                }
            },
            None => {},
        }
        proof {
            assert(views(parents@) =~= config_parents(cp.take(i + 1)));
        }
        i = i + 1;
    }
    assert(cp.take(cp.len() as int) =~= cp);
    let sorted = sort_as_paths(parents);
    let ghost sv = views(sorted@);
    let mut out: Vec<String> = Vec::new();
    let mut j: usize = 0;
    while j < sorted.len()
        invariant
            j <= sorted@.len(),
            sv == views(sorted@),
            views(out@) == dedup_paths(sv.take(j as int)),
        decreases sorted@.len() - j,
    {
        proof {
            assert(sv.take(j + 1).drop_last() =~= sv.take(j as int));
        }
        let keep = if out.len() == 0 {
            true
        } else {
            !same_path(&sorted[j], &out[out.len() - 1])
        };
        if keep {
            out.push(sorted[j].clone());
        }
        proof {
            assert(views(out@) =~= dedup_paths(sv.take(j + 1)));
        }
        j = j + 1;
    }
    assert(sv.take(sv.len() as int) =~= sv);
    out
}

/// `s` ends with `suffix` (as `str::ends_with`).
pub open spec fn ends_with(s: Seq<char>, suffix: Seq<char>) -> bool {
    suffix.len() <= s.len() && s.subrange(s.len() - suffix.len(), s.len() as int) == suffix
}

/// Whether an event path designates one of the configuration files: the
/// same text, a path ending with it, or a path whose canonical form is it.
pub open spec fn is_config_event(path: Seq<char>, canonical: Option<Seq<char>>, config_paths: Seq<Seq<char>>) -> bool {
    exists|k: int|
        0 <= k < config_paths.len() && ({
            let c = #[trigger] config_paths[k];
            path == c || ends_with(path, c) || canonical == Some(c)
        })
}

fn ends_with_exec(s: &[char], suffix: &[char]) -> (r: bool)
    ensures
        r == ends_with(s@, suffix@),
{
    if suffix.len() > s.len() {
        return false;
    }
    let tail = slice_chars(s, s.len() - suffix.len(), s.len());
    chars_eq(&tail, suffix)
}

fn is_config_event_exec(path: &String, canonical: &Option<String>, config_paths: &[String]) -> (r: bool)
    ensures
        r == is_config_event(
            path@,
            match canonical {
                Some(c) => Some(c@),
                None => None,
            },
            views(config_paths@),
        ),
{
    let ghost can = match canonical {
        Some(c) => Some(c@),
        None => None,
    };
    let pc = to_chars(path.as_str());
    let mut k: usize = 0;
    while k < config_paths.len()
        invariant
            k <= config_paths@.len(),
            pc@ == path@,
            can == match canonical {
                Some(c) => Some(c@),
                None => None::<Seq<char>>,
            },
            forall|j: int|
                0 <= j < k ==> !({
                    let c = #[trigger] views(config_paths@)[j];
                    path@ == c || ends_with(path@, c) || can == Some(c)
                }),
        decreases config_paths@.len() - k,
    {
        let cc = to_chars(config_paths[k].as_str());
        let by_canonical = match canonical {
            Some(c) => chars_eq(&to_chars(c.as_str()), &cc),
            None => false,
        };
        if chars_eq(&pc, &cc) || ends_with_exec(&pc, &cc) || by_canonical {
            assert(views(config_paths@)[k as int] == cc@);
            return true;
        }
        assert(views(config_paths@)[k as int] == cc@);
        k = k + 1;
    }
    false
}

/// The first event of a batch that designates a configuration file, or
/// the empty text when none does. `canonical[i]` is the canonical form of
/// the path of event `i`, when it could be resolved.
pub open spec fn changed_config_spec(
    events: Seq<FileEvent>,
    canonical: Seq<Option<Seq<char>>>,
    config_paths: Seq<Seq<char>>,
) -> Seq<char>
    decreases events.len(),
{
    if events.len() == 0 {
        Seq::empty()
    } else if is_config_event(events[0].path@, canonical[0], config_paths) {
        events[0].path@
    } else {
        changed_config_spec(events.drop_first(), canonical.drop_first(), config_paths)
    }
}

pub open spec fn canonical_views(c: Seq<Option<String>>) -> Seq<Option<Seq<char>>> {
    c.map_values(
        |o: Option<String>|
            match o {
                Some(s) => Some(s@),
                None => None,
            },
    )
}

pub fn changed_config_path(events: &[FileEvent], canonical: &[Option<String>], config_paths: &[String]) -> (r: String)
    requires
        canonical@.len() == events@.len(),
    ensures
        r@ == changed_config_spec(events@, canonical_views(canonical@), views(config_paths@)),
{
    let ghost cv = canonical_views(canonical@);
    assert(events@.skip(0) =~= events@);
    assert(cv.skip(0) =~= cv);
    let mut i: usize = 0;
    while i < events.len()
        invariant
            i <= events@.len(),
            canonical@.len() == events@.len(),
            cv == canonical_views(canonical@),
            changed_config_spec(events@, cv, views(config_paths@)) == changed_config_spec(
                events@.skip(i as int),
                cv.skip(i as int),
                views(config_paths@),
            ),
        decreases events@.len() - i,
    {
        proof {
            assert(events@.skip(i as int).drop_first() =~= events@.skip(i + 1));
            assert(cv.skip(i as int).drop_first() =~= cv.skip(i + 1));
            assert(events@.skip(i as int)[0] == events@[i as int]);
            assert(cv.skip(i as int)[0] == cv[i as int]);
        }
        if is_config_event_exec(&events[i].path, &canonical[i], config_paths) {
            return events[i].path.clone();
        }
        i = i + 1;
    }
    assert(events@.skip(i as int) =~= Seq::<FileEvent>::empty());
    String::new()
}

/// The last known modified time of each configuration file, in
/// nanoseconds from the Unix epoch; a change event counts only when the
/// file's modified time moved since (historical replays are ignored).
#[derive(Clone, Debug, PartialEq, Eq)]
pub struct ConfigBaselines {
    pub entries: Vec<(String, i128)>,
}

/// The recorded time of `p`: its first entry.
pub open spec fn baseline_of(entries: Seq<(Seq<char>, i128)>, p: Seq<char>) -> Option<i128>
    decreases entries.len(),
{
    if entries.len() == 0 {
        None
    } else {
        match baseline_of(entries.drop_last(), p) {
            Some(t) => Some(t),
            None => if entries.last().0 == p {
                Some(entries.last().1)
            } else {
                None
            },
        }
    }
}

pub open spec fn baseline_views(v: Seq<(String, i128)>) -> Seq<(Seq<char>, i128)> {
    v.map_values(|e: (String, i128)| (e.0@, e.1))
}

/// Whether a change event reflects a real modification: only a known,
/// unchanged modified time is a replay; an unknown path or a missing time
/// counts as real.
pub open spec fn really_changed(current: Option<i128>, baseline: Option<i128>) -> bool {
    match (current, baseline) {
        (Some(c), Some(b)) => c != b,
        _ => true,
    }
}

impl ConfigBaselines {
    fn find(&self, path: &String) -> (r: Option<usize>)
        ensures
            match r {
                Some(k) => k < self.entries@.len() && self.entries@[k as int].0@ == path@
                    && baseline_of(baseline_views(self.entries@).take(k as int), path@) is None
                    && baseline_of(baseline_views(self.entries@), path@) == Some(
                    self.entries@[k as int].1,
                ),
                None => baseline_of(baseline_views(self.entries@), path@) is None,
            },
    {
        let ghost vs = baseline_views(self.entries@);
        let pc = crate::text::to_chars(path.as_str());
        let mut i: usize = 0;
        while i < self.entries.len()
            invariant
                i <= self.entries@.len(),
                vs == baseline_views(self.entries@),
                pc@ == path@,
                baseline_of(vs.take(i as int), path@) is None,
            decreases self.entries@.len() - i,
        {
            proof {
                assert(vs.take(i + 1).drop_last() =~= vs.take(i as int));
            }
            if chars_eq(&crate::text::to_chars(self.entries[i].0.as_str()), &pc) {
                proof {
                    assert(vs[i as int].0 == path@);
                    lemma_baseline_prefix(vs, i as int + 1, path@);
                }
                return Some(i);
            }
            i = i + 1;
        }
        assert(vs.take(vs.len() as int) =~= vs);
        None
    }

    /// Decides whether a change event for `path` is real, given the file's
    /// current modified time, and records that time as the new baseline.
    pub fn observe(&mut self, path: &String, current: Option<i128>) -> (r: bool)
        ensures
            r == really_changed(current, baseline_of(baseline_views(old(self).entries@), path@)),
            current is Some ==> baseline_of(baseline_views(final(self).entries@), path@) == current,
            current is None ==> final(self).entries@ == old(self).entries@,
    {
        let found = self.find(path);
        let baseline = match found {
            Some(k) => Some(self.entries[k].1),
            None => None,
        };
        let changed = match (current, baseline) {
            (Some(c), Some(b)) => c != b,
            _ => true,
        };
        if let Some(c) = current {
            match found {
                Some(k) => {
                    let ghost before = baseline_views(self.entries@);
                    self.entries.set(k, (path.clone(), c));
                    proof {
                        let after = baseline_views(self.entries@);
                        assert(after =~= before.update(k as int, (path@, c)));
                        lemma_baseline_update(before, k as int, path@, c);
                        assert(after == before.update(k as int, (path@, c)));
                    }
                },
                None => {
                    let ghost before = baseline_views(self.entries@);
                    self.entries.push((path.clone(), c));
                    proof {
                        let after = baseline_views(self.entries@);
                        assert(after =~= before.push((path@, c)));
                        assert(after.drop_last() =~= before);
                    }
                },
            }
        }
        changed
    }
}

proof fn lemma_baseline_prefix(v: Seq<(Seq<char>, i128)>, n: int, p: Seq<char>)
    requires
        0 < n <= v.len(),
        v[n - 1].0 == p,
        baseline_of(v.take(n - 1), p) is None,
    ensures
        baseline_of(v, p) == Some(v[n - 1].1),
    decreases v.len(),
{
    assert(v.take(n).drop_last() =~= v.take(n - 1));
    if n < v.len() {
        assert(v.drop_last().take(n - 1) =~= v.take(n - 1));
        assert(v.drop_last()[n - 1] == v[n - 1]);
        lemma_baseline_prefix(v.drop_last(), n, p);
    } else {
        assert(v.take(n) =~= v);
    }
}

proof fn lemma_baseline_update(v: Seq<(Seq<char>, i128)>, k: int, p: Seq<char>, c: i128)
    requires
        0 <= k < v.len(),
        baseline_of(v.take(k), p) is None,
    ensures
        baseline_of(v.update(k, (p, c)), p) == Some(c),
{
    let u = v.update(k, (p, c));
    assert(u.take(k) =~= v.take(k));
    lemma_baseline_prefix(u, k + 1, p);
}

/// Where one config reload stands. Every step that touches the outside
/// (reading the file, validating, building the candidate, binding the new
/// control socket, preparing roots, committing) is performed by the caller,
/// which reports its outcome.
#[derive(Clone, Copy, Debug, PartialEq, Eq, Structural)]
pub enum ReloadPhase {
    Idle,
    Reading,
    Deciding,
    Building { revision: u64 },
    BindingSocket { revision: u64 },
    Preparing { revision: u64 },
    Committing { revision: u64 },
}

/// The outcome the caller reports for the current phase.
#[derive(Debug, PartialEq, Eq)]
pub enum ReloadEvent {
    /// A batch changed a configuration file; `modified` is false for a replay
    /// whose modified time did not move.
    FileChanged { modified: bool },
    ContentRead(Result<(), String>),
    /// The validation and revision decision for the candidate.
    Decided(ReloadDecision),
    /// The candidate watches were built; `socket_move` tells whether the
    /// candidate moves the control socket to a new path.
    CandidateBuilt(Result<bool, String>),
    SocketBound(Result<(), String>),
    Prepared(Result<(), String>),
    Committed(Result<(), String>),
}

/// The validation and revision decision for a candidate config.
#[derive(Clone, Debug, PartialEq, Eq)]
pub enum ReloadDecision {
    /// Valid but semantically identical: nothing to reload.
    NoOp,
    /// Valid and a semantic change: commit as this revision number.
    Commit(u64),
    /// Invalid: the failing gate and reason.
    Fatal(ConfigError),
}

/// What the caller does next.
#[derive(Clone, Debug, PartialEq, Eq)]
pub enum ReloadAction {
    /// Nothing: the event is not for this phase, or a replay.
    Ignore,
    ReadContent,
    Decide,
    Inform(String),
    /// Announce `configReloading` for the revision and build the candidate.
    Build { revision: u64 },
    BindSocket,
    Prepare,
    Commit,
    /// After the commit: replace the future close hook, truncate the log
    /// when configured, retire obsolete roots and the old socket, announce
    /// the reload with this line and `configReloaded`.
    Finish { truncate_log: bool, notice: String },
    /// Shut down gracefully: the config cannot be reloaded.
    Fatal(String),
}

pub enum ReloadActionView {
    Ignore,
    ReadContent,
    Decide,
    Inform(Seq<char>),
    Build { revision: u64 },
    BindSocket,
    Prepare,
    Commit,
    Finish { truncate_log: bool, notice: Seq<char> },
    Fatal(Seq<char>),
}

pub open spec fn reload_action_view(a: ReloadAction) -> ReloadActionView {
    match a {
        ReloadAction::Ignore => ReloadActionView::Ignore,
        ReloadAction::ReadContent => ReloadActionView::ReadContent,
        ReloadAction::Decide => ReloadActionView::Decide,
        ReloadAction::Inform(m) => ReloadActionView::Inform(m@),
        ReloadAction::Build { revision } => ReloadActionView::Build { revision },
        ReloadAction::BindSocket => ReloadActionView::BindSocket,
        ReloadAction::Prepare => ReloadActionView::Prepare,
        ReloadAction::Commit => ReloadActionView::Commit,
        ReloadAction::Finish { truncate_log, notice } => ReloadActionView::Finish {
            truncate_log,
            notice: notice@,
        },
        ReloadAction::Fatal(m) => ReloadActionView::Fatal(m@),
    }
}

/// The word for a failed validation gate.
pub open spec fn gate_word(g: ValidationGate) -> Seq<char> {
    match g {
        ValidationGate::Syntactic => "syntax"@,
        ValidationGate::Schema => "schema"@,
        ValidationGate::Semantic => "semantics"@,
        ValidationGate::Operational => "operational"@,
    }
}

pub open spec fn reload_notice(revision: u64) -> Seq<char> {
    "Config change is valid; hot-reloading to revision "@ + decimal(revision as nat) + "."@
}

/// One step of a reload. An event that does not belong to the current
/// phase changes nothing.
pub open spec fn reload_step_spec(p: ReloadPhase, truncate: bool, e: ReloadEvent) -> (ReloadPhase, ReloadActionView) {
    match (p, e) {
        (ReloadPhase::Idle, ReloadEvent::FileChanged { modified }) => if modified {
            (ReloadPhase::Reading, ReloadActionView::ReadContent)
        } else {
            (ReloadPhase::Idle, ReloadActionView::Ignore)
        },
        (ReloadPhase::Reading, ReloadEvent::ContentRead(r)) => match r {
            Ok(()) => (ReloadPhase::Deciding, ReloadActionView::Decide),
            Err(e) => (ReloadPhase::Idle, ReloadActionView::Fatal("config unreadable after change: "@ + e@)),
        },
        (ReloadPhase::Deciding, ReloadEvent::Decided(d)) => match d {
            ReloadDecision::NoOp => (
                ReloadPhase::Idle,
                ReloadActionView::Inform("Config save has no semantic change; nothing to reload."@),
            ),
            ReloadDecision::Commit(revision) => (
                ReloadPhase::Building { revision },
                ReloadActionView::Build { revision },
            ),
            ReloadDecision::Fatal(err) => (
                ReloadPhase::Idle,
                ReloadActionView::Fatal(
                    "invalid config ("@ + gate_word(err.gate) + "): "@ + err.reason@,
                ),
            ),
        },
        (ReloadPhase::Building { revision }, ReloadEvent::CandidateBuilt(r)) => match r {
            Ok(socket_move) => if socket_move {
                (ReloadPhase::BindingSocket { revision }, ReloadActionView::BindSocket)
            } else {
                (ReloadPhase::Preparing { revision }, ReloadActionView::Prepare)
            },
            Err(e) => (ReloadPhase::Idle, ReloadActionView::Fatal(e@)),
        },
        (ReloadPhase::BindingSocket { revision }, ReloadEvent::SocketBound(r)) => match r {
            Ok(()) => (ReloadPhase::Preparing { revision }, ReloadActionView::Prepare),
            Err(e) => (ReloadPhase::Idle, ReloadActionView::Fatal("control socket rebind failed: "@ + e@)),
        },
        (ReloadPhase::Preparing { revision }, ReloadEvent::Prepared(r)) => match r {
            Ok(()) => (ReloadPhase::Committing { revision }, ReloadActionView::Commit),
            Err(e) => (ReloadPhase::Idle, ReloadActionView::Fatal("reload prepare failed: "@ + e@)),
        },
        (ReloadPhase::Committing { revision }, ReloadEvent::Committed(r)) => match r {
            Ok(()) => (
                ReloadPhase::Idle,
                ReloadActionView::Finish { truncate_log: truncate, notice: reload_notice(revision) },
            ),
            Err(e) => (ReloadPhase::Idle, ReloadActionView::Fatal("reload commit failed: "@ + e@)),
        },
        _ => (p, ReloadActionView::Ignore),
    }
}

fn prefixed(prefix: &str, rest: &String) -> (r: String)
    ensures
        r@ == prefix@ + rest@,
{
    let mut m = owned(prefix);
    m.append(rest.as_str());
    m
}

/// Whether the candidate moves the control socket: set or unset, or moved
/// to another path (compared as paths).
pub open spec fn socket_moves(current: Option<Seq<char>>, candidate: Option<Seq<char>>) -> bool {
    match (current, candidate) {
        (Some(c), Some(n)) => !paths_equal(c, n),
        (None, None) => false,
        _ => true,
    }
}

pub fn socket_changed(current: &Option<String>, candidate: &Option<String>) -> (r: bool)
    ensures
        r == socket_moves(
            match current {
                Some(c) => Some(c@),
                None => None,
            },
            match candidate {
                Some(n) => Some(n@),
                None => None,
            },
        ),
{
    match (current, candidate) {
        (Some(c), Some(n)) => !same_path(c, n),
        (None, None) => false,
        _ => true,
    }
}

/// The reload of one configuration change.
#[derive(Clone, Copy, Debug, PartialEq, Eq)]
pub struct ReloadTransaction {
    pub phase: ReloadPhase,
    pub truncate_on_change: bool,
}

impl ReloadTransaction {
    pub fn new(truncate_on_change: bool) -> (r: Self)
        ensures
            r.phase == ReloadPhase::Idle,
            r.truncate_on_change == truncate_on_change,
    {
        ReloadTransaction { phase: ReloadPhase::Idle, truncate_on_change }
    }

    /// Advances the reload on the reported outcome.
    pub fn step(&mut self, e: ReloadEvent) -> (r: ReloadAction)
        ensures
            (final(self).phase, reload_action_view(r)) == reload_step_spec(
                old(self).phase,
                old(self).truncate_on_change,
                e,
            ),
            final(self).truncate_on_change == old(self).truncate_on_change,
    {
        proof {
            reveal_strlit("syntax");
            reveal_strlit("schema");
            reveal_strlit("semantics");
            reveal_strlit("operational");
        }
        match (self.phase, e) {
            (ReloadPhase::Idle, ReloadEvent::FileChanged { modified }) => {
                if modified {
                    self.phase = ReloadPhase::Reading;
                    ReloadAction::ReadContent
                } else {
                    ReloadAction::Ignore
                }
            },
            (ReloadPhase::Reading, ReloadEvent::ContentRead(r)) => match r {
                Ok(()) => {
                    self.phase = ReloadPhase::Deciding;
                    ReloadAction::Decide
                },
                Err(e) => {
                    self.phase = ReloadPhase::Idle;
                    ReloadAction::Fatal(prefixed("config unreadable after change: ", &e))
                },
            },
            (ReloadPhase::Deciding, ReloadEvent::Decided(d)) => match d {
                ReloadDecision::NoOp => {
                    self.phase = ReloadPhase::Idle;
                    ReloadAction::Inform(owned("Config save has no semantic change; nothing to reload."))
                },
                ReloadDecision::Commit(revision) => {
                    self.phase = ReloadPhase::Building { revision };
                    ReloadAction::Build { revision }
                },
                ReloadDecision::Fatal(err) => {
                    self.phase = ReloadPhase::Idle;
                    let word = match err.gate {
                        ValidationGate::Syntactic => "syntax",
                        ValidationGate::Schema => "schema",
                        ValidationGate::Semantic => "semantics",
                        ValidationGate::Operational => "operational",
                    };
                    let mut m = owned("invalid config (");
                    m.append(word);
                    m.append("): ");
                    m.append(err.reason.as_str());
                    ReloadAction::Fatal(m)
                },
            },
            (ReloadPhase::Building { revision }, ReloadEvent::CandidateBuilt(r)) => match r {
                Ok(socket_move) => {
                    if socket_move {
                        self.phase = ReloadPhase::BindingSocket { revision };
                        ReloadAction::BindSocket
                    } else {
                        self.phase = ReloadPhase::Preparing { revision };
                        ReloadAction::Prepare
                    }
                },
                Err(e) => {
                    self.phase = ReloadPhase::Idle;
                    ReloadAction::Fatal(e)
                },
            },
            (ReloadPhase::BindingSocket { revision }, ReloadEvent::SocketBound(r)) => match r {
                Ok(()) => {
                    self.phase = ReloadPhase::Preparing { revision };
                    ReloadAction::Prepare
                },
                Err(e) => {
                    self.phase = ReloadPhase::Idle;
                    ReloadAction::Fatal(prefixed("control socket rebind failed: ", &e))
                },
            },
            (ReloadPhase::Preparing { revision }, ReloadEvent::Prepared(r)) => match r {
                Ok(()) => {
                    self.phase = ReloadPhase::Committing { revision };
                    ReloadAction::Commit
                },
                Err(e) => {
                    self.phase = ReloadPhase::Idle;
                    ReloadAction::Fatal(prefixed("reload prepare failed: ", &e))
                },
            },
            (ReloadPhase::Committing { revision }, ReloadEvent::Committed(r)) => match r {
                Ok(()) => {
                    self.phase = ReloadPhase::Idle;
                    let mut notice = owned("Config change is valid; hot-reloading to revision ");
                    notice.append(decimal_string(revision).as_str());
                    notice.append(".");
                    ReloadAction::Finish { truncate_log: self.truncate_on_change, notice }
                },
                Err(e) => {
                    self.phase = ReloadPhase::Idle;
                    ReloadAction::Fatal(prefixed("reload commit failed: ", &e))
                },
            },
            _ => ReloadAction::Ignore,
        }
    }
}

/// The notice after truncating the log on a committed reload.
pub fn truncate_notice(r: &Result<(), String>) -> (m: String)
    ensures
        m@ == match r {
            Ok(()) => "Log file truncated before reloading configuration."@,
            Err(e) => "Failed to truncate log file: "@ + e@,
        },
{
    match r {
        Ok(()) => owned("Log file truncated before reloading configuration."),
        Err(e) => prefixed("Failed to truncate log file: ", e),
    }
}

/// Validate-then-commit: a reload commits only after the candidate was
/// read, decided a semantic change, built, its socket (if moved) bound and
/// its roots prepared, in that order; every failure on the way shuts down
/// with a fatal notice and nothing committed; a replay or a no-op save
/// never starts or commits anything.
pub proof fn law_reload_commits_only_after_every_gate(p: ReloadPhase, truncate: bool, e: ReloadEvent)
    ensures
        reload_step_spec(p, truncate, e).1 is Commit ==> p is Preparing && (e matches ReloadEvent::Prepared(
            r,
        ) && r is Ok),
        reload_step_spec(p, truncate, e).1 is Finish ==> p is Committing && (e matches ReloadEvent::Committed(
            r,
        ) && r is Ok),
        reload_step_spec(p, truncate, e).1 is Fatal ==> reload_step_spec(p, truncate, e).0
            == ReloadPhase::Idle,
        reload_step_spec(p, truncate, e).0 is Building ==> (p == ReloadPhase::Deciding && e matches ReloadEvent::Decided(
            ReloadDecision::Commit(_),
        )) || p == reload_step_spec(p, truncate, e).0,
        (p == ReloadPhase::Idle && e == ReloadEvent::FileChanged { modified: false }) ==> reload_step_spec(
            p,
            truncate,
            e,
        ) == (ReloadPhase::Idle, ReloadActionView::Ignore),
        (p == ReloadPhase::Deciding && e == ReloadEvent::Decided(ReloadDecision::NoOp))
            ==> reload_step_spec(p, truncate, e).0 == ReloadPhase::Idle,
{
}

} // verus!
