//! The filesystem watcher's decisions: one normalized event batch per
//! debounce window, the backend selection, and the polling scanner's change
//! detection. Registering watches, walking directories and reading file
//! times are done by the caller, which hands the results in.
use std::sync::mpsc::{Receiver, Sender};
use vstd::prelude::*;

use crate::text::{
    chars_eq, from_chars, lemma_lex_total, lemma_lex_transitive, lex_less, lex_lt,
    strictly_sorted, to_chars, views,
};

verus! {

/// One debounced filesystem event: the raw path and whether the debounce
/// window saw it as continuously written.
#[derive(Clone, Debug, PartialEq, Eq)]
pub struct FileEvent {
    pub path: String,
    pub continuous: bool,
}

/// The paths of a list of events.
pub open spec fn event_paths(s: Seq<FileEvent>) -> Seq<Seq<char>> {
    s.map_values(|e: FileEvent| e.path@)
}

/// `e` is the first event of `s` with its path.
pub open spec fn first_with_path(s: Seq<FileEvent>, e: FileEvent) -> bool {
    exists|k: int|
        0 <= k < s.len() && s[k] == e && forall|j: int| 0 <= j < k ==> (#[trigger] s[j]).path@ != e.path@
}

/// The normalized form of a window's events: ordered by path, one event per
/// path, the first one the window delivered for it.
pub open spec fn normalized_events(input: Seq<FileEvent>, out: Seq<FileEvent>) -> bool {
    &&& strictly_sorted(event_paths(out))
    &&& event_paths(out).to_set() == event_paths(input).to_set()
    &&& forall|i: int| 0 <= i < out.len() ==> first_with_path(input, #[trigger] out[i])
}

fn copy_event(e: &FileEvent) -> (r: FileEvent)
    ensures
        r == *e,
{
    FileEvent { path: e.path.clone(), continuous: e.continuous }
}

/// Adds `e` at its place by path unless an event with its path is present.
fn insert_event(out: &mut Vec<FileEvent>, e: &FileEvent)
    requires
        strictly_sorted(event_paths(old(out)@)),
    ensures
        strictly_sorted(event_paths(final(out)@)),
        event_paths(final(out)@).to_set() == event_paths(old(out)@).to_set().insert(e.path@),
        event_paths(old(out)@).contains(e.path@) ==> final(out)@ == old(out)@,
        !event_paths(old(out)@).contains(e.path@) ==> exists|pos: int|
            0 <= pos <= old(out)@.len() && final(out)@ == old(out)@.insert(pos, *e),
{
    let pc = to_chars(e.path.as_str());
    let ghost vs = event_paths(out@);
    let mut pos: usize = 0;
    while pos < out.len() && lex_less(&to_chars(out[pos].path.as_str()), &pc)
        invariant
            pos <= out@.len(),
            vs == event_paths(out@),
            pc@ == e.path@,
            forall|k: int| 0 <= k < pos ==> lex_lt(#[trigger] vs[k], e.path@),
        decreases out@.len() - pos,
    {
        pos = pos + 1;
    }
    if pos < out.len() && chars_eq(&to_chars(out[pos].path.as_str()), &pc) {
        assert(vs[pos as int] == e.path@);
        assert(vs.to_set() =~= vs.to_set().insert(e.path@));
        return;
    }
    proof {
        if pos < out@.len() {
            lemma_lex_total(vs[pos as int], e.path@);
        }
        assert forall|k: int| pos <= k < vs.len() implies lex_lt(e.path@, #[trigger] vs[k]) by {
            if k > pos {
                lemma_lex_transitive(e.path@, vs[pos as int], vs[k]);
            }
        }
        assert(!vs.contains(e.path@)) by {
            if vs.contains(e.path@) {
                let k = choose|k: int| 0 <= k < vs.len() && vs[k] == e.path@;
                if k < pos {
                    crate::text::lemma_lex_irreflexive(e.path@);
                } else {
                    crate::text::lemma_lex_irreflexive(e.path@);
                }
            }
        }
    }
    let ghost before = out@;
    out.insert(pos, copy_event(e));
    proof {
        let nv = event_paths(out@);
        assert(nv =~= vs.insert(pos as int, e.path@));
        assert forall|i: int, j: int| 0 <= i < j < nv.len() implies lex_lt(nv[i], nv[j]) by {
            if j < pos {
                assert(nv[i] == vs[i]);
                assert(nv[j] == vs[j]);
            } else if i < pos && j == pos {
            } else if i < pos && j > pos {
                assert(nv[j] == vs[j - 1]);
            } else if i == pos {
                assert(nv[j] == vs[j - 1]);
            } else {
                assert(nv[i] == vs[i - 1]);
                assert(nv[j] == vs[j - 1]);
            }
        }
        assert forall|x: Seq<char>| nv.to_set().contains(x) <==> vs.to_set().insert(e.path@).contains(
            x,
        ) by {
            if nv.contains(x) {
                let k = choose|k: int| 0 <= k < nv.len() && nv[k] == x;
                if k < pos {
                    assert(vs[k] == x);
                } else if k > pos {
                    assert(vs[k - 1] == x);
                }
            }
            if vs.contains(x) {
                let k = choose|k: int| 0 <= k < vs.len() && vs[k] == x;
                if k < pos {
                    assert(nv[k] == x);
                } else {
                    assert(nv[k + 1] == x);
                }
            }
            if x == e.path@ {
                assert(nv[pos as int] == x);
            }
        }
        assert(nv.to_set() =~= vs.to_set().insert(e.path@));
        assert(out@ == before.insert(pos as int, *e));
    }
}

/// One debounce window is one normalized event batch: paths deduplicated
/// and ordered, each with the kind of its first delivery. A malformed
/// window (`None`) yields an empty batch and the malformed flag, so the
/// watch loop never schedules from an error.
pub fn normalize_batch(window: Option<Vec<FileEvent>>) -> (r: (Vec<FileEvent>, bool))
    ensures
        window is None ==> r.0@.len() == 0 && r.1,
        window matches Some(events) ==> !r.1 && normalized_events(events@, r.0@),
{
    let events = match window {
        None => {
            return (Vec::new(), true);
        },
        Some(events) => events,
    };
    let mut out: Vec<FileEvent> = Vec::new();
    let mut i: usize = 0;
    while i < events.len()
        invariant
            i <= events@.len(),
            strictly_sorted(event_paths(out@)),
            event_paths(out@).to_set() == event_paths(events@.take(i as int)).to_set(),
            forall|k: int| 0 <= k < out@.len() ==> first_with_path(events@.take(i as int), #[trigger] out@[k]),
        decreases events@.len() - i,
    {
        let ghost before = out@;
        let ghost pre = events@.take(i as int);
        let ghost next = events@.take(i + 1);
        insert_event(&mut out, &events[i]);
        proof {
            let e = events@[i as int];
            assert(next == pre.push(e));
            assert(event_paths(next) =~= event_paths(pre).push(e.path@));
            event_paths(pre).lemma_push_to_set_commute(e.path@);
            assert forall|k: int| 0 <= k < out@.len() implies first_with_path(next, #[trigger] out@[k]) by {
                let x = out@[k];
                if event_paths(before).contains(e.path@) {
                    let w = choose|w: int|
                        0 <= w < pre.len() && pre[w] == x && forall|j: int| 0 <= j < w ==> (#[trigger] pre[j]).path@ != x.path@;
                    assert(next[w] == x);
                    assert forall|j: int| 0 <= j < w implies (#[trigger] next[j]).path@ != x.path@ by {
                        assert(next[j] == pre[j]);
                    }
                } else {
                    let pos = choose|pos: int| 0 <= pos <= before.len() && out@ == before.insert(pos, e);
                    if k == pos {
                        assert(next[i as int] == x);
                        assert forall|j: int| 0 <= j < i implies (#[trigger] next[j]).path@ != x.path@ by {
                            assert(next[j] == pre[j]);
                            if pre[j].path@ == x.path@ {
                                assert(event_paths(pre)[j] == x.path@);
                                assert(event_paths(pre).to_set().contains(x.path@));
                                assert(event_paths(before).to_set().contains(x.path@));
                            }
                        }
                    } else {
                        let y = if k < pos { before[k] } else { before[k - 1] };
                        assert(x == y);
                        let kk = if k < pos { k } else { k - 1 };
                        assert(first_with_path(pre, before[kk]));
                        let w = choose|w: int|
                            0 <= w < pre.len() && pre[w] == x && forall|j: int| 0 <= j < w ==> (#[trigger] pre[j]).path@ != x.path@;
                        assert(next[w] == x);
                        assert forall|j: int| 0 <= j < w implies (#[trigger] next[j]).path@ != x.path@ by {
                            assert(next[j] == pre[j]);
                        }
                    }
                }
            }
        }
        i = i + 1;
    }
    assert(events@.take(events@.len() as int) =~= events@);
    (out, false)
}

/// Watch backend policy: native notification, deterministic polling at an
/// interval in milliseconds, or automatic (native, falling back to polling).
#[derive(Clone, Copy, Debug, PartialEq, Eq, Structural)]
pub enum WatchBackend {
    Native,
    Poll { interval_ms: u64 },
    Auto,
}

/// The poll interval when none is configured.
pub const DEFAULT_POLL_INTERVAL_MS: u64 = 500;

/// The message for an unknown backend name.
pub open spec fn invalid_backend_message(name: Seq<char>) -> Seq<char> {
    "invalid 'on.watch_backend' '"@ + name + "': expected native, poll, or auto"@
}

/// The backend a configuration selects; no name means `auto`.
pub open spec fn parse_backend_spec(backend: Option<Seq<char>>, poll_interval_ms: Option<u64>) -> Result<
    WatchBackend,
    Seq<char>,
> {
    let name = match backend {
        Some(b) => b,
        None => "auto"@,
    };
    if name == "auto"@ {
        Ok(WatchBackend::Auto)
    } else if name == "native"@ {
        Ok(WatchBackend::Native)
    } else if name == "poll"@ {
        Ok(
            WatchBackend::Poll {
                interval_ms: match poll_interval_ms {
                    Some(ms) => ms,
                    None => DEFAULT_POLL_INTERVAL_MS,
                },
            },
        )
    } else {
        Err(invalid_backend_message(name))
    }
}

impl WatchBackend {
    /// Parses `on.watch_backend` (native, poll or auto) and an optional poll
    /// interval; other names are refused.
    pub fn parse(backend: Option<&str>, poll_interval_ms: Option<u64>) -> (r: Result<Self, String>)
        ensures
            r matches Ok(b) ==> parse_backend_spec(
                match backend {
                    Some(b) => Some(b@),
                    None => None,
                },
                poll_interval_ms,
            ) == Ok::<WatchBackend, Seq<char>>(b),
            r matches Err(m) ==> parse_backend_spec(
                match backend {
                    Some(b) => Some(b@),
                    None => None,
                },
                poll_interval_ms,
            ) == Err::<WatchBackend, Seq<char>>(m@),
    {
        let name = match backend {
            Some(b) => to_chars(b),
            None => to_chars("auto"),
        };
        if chars_eq(&name, &to_chars("auto")) {
            Ok(WatchBackend::Auto)
        } else if chars_eq(&name, &to_chars("native")) {
            Ok(WatchBackend::Native)
        } else if chars_eq(&name, &to_chars("poll")) {
            let interval_ms = match poll_interval_ms {
                Some(ms) => ms,
                None => DEFAULT_POLL_INTERVAL_MS,
            };
            Ok(WatchBackend::Poll { interval_ms })
        } else {
            let mut msg = to_chars("invalid 'on.watch_backend' '");
            crate::text::extend_chars(&mut msg, &name);
            crate::text::extend_chars(&mut msg, &to_chars("': expected native, poll, or auto"));
            Err(from_chars(&msg))
        }
    }
}

/// One filesystem fact the poll scanner tracks: the modified time in
/// milliseconds since the epoch, absent when the path does not exist.
#[derive(Clone, Copy, Debug, PartialEq, Eq, Structural)]
pub struct PollSnapshot {
    pub modified: Option<u64>,
}

/// The facts of one scan: each path with its snapshot.
pub open spec fn facts_view(s: Seq<(String, PollSnapshot)>) -> Seq<(Seq<char>, PollSnapshot)> {
    s.map_values(|f: (String, PollSnapshot)| (f.0@, f.1))
}

/// The paths of a list of facts.
pub open spec fn fact_paths(s: Seq<(Seq<char>, PollSnapshot)>) -> Seq<Seq<char>> {
    s.map_values(|f: (Seq<char>, PollSnapshot)| f.0)
}

/// The paths of `cur` whose fact the previous scan did not record: new
/// paths and paths whose snapshot changed, in the order of `cur`.
pub open spec fn changed_paths(
    prev: Seq<(Seq<char>, PollSnapshot)>,
    cur: Seq<(Seq<char>, PollSnapshot)>,
) -> Seq<Seq<char>>
    decreases cur.len(),
{
    if cur.len() == 0 {
        Seq::empty()
    } else {
        changed_paths(prev, cur.drop_last()) + if prev.contains(cur.last()) {
            Seq::<Seq<char>>::empty()
        } else {
            seq![cur.last().0]
        }
    }
}

/// The paths of the previous scan that are gone now, in the order of
/// `prev`.
pub open spec fn removed_paths(
    prev: Seq<(Seq<char>, PollSnapshot)>,
    cur: Seq<(Seq<char>, PollSnapshot)>,
) -> Seq<Seq<char>>
    decreases prev.len(),
{
    if prev.len() == 0 {
        Seq::empty()
    } else {
        removed_paths(prev.drop_last(), cur) + if fact_paths(cur).contains(prev.last().0) {
            Seq::<Seq<char>>::empty()
        } else {
            seq![prev.last().0]
        }
    }
}

/// What one scan reports: nothing on the first scan, which only seeds the
/// baseline; afterwards the changed paths, then the removed ones.
pub open spec fn scan_report(
    seeded: bool,
    prev: Seq<(Seq<char>, PollSnapshot)>,
    cur: Seq<(Seq<char>, PollSnapshot)>,
) -> Seq<Seq<char>> {
    if seeded {
        changed_paths(prev, cur) + removed_paths(prev, cur)
    } else {
        Seq::empty()
    }
}

/// Deterministic polling scanner: remembers the facts of the previous scan
/// and reports the paths whose fact changed. Clock-free: the caller decides
/// the interval, walks the watched roots (in its deterministic order, each
/// path once) and reads the facts.
pub struct PollScanner {
    watched: Vec<String>,
    previous: Vec<(String, PollSnapshot)>,
    seeded: bool,
}

/// The mathematical value of a `PollScanner`.
pub struct PollScannerView {
    pub watched: Seq<Seq<char>>,
    pub previous: Seq<(Seq<char>, PollSnapshot)>,
    pub seeded: bool,
}

impl View for PollScanner {
    type V = PollScannerView;

    closed spec fn view(&self) -> PollScannerView {
        PollScannerView {
            watched: crate::text::views(self.watched@),
            previous: facts_view(self.previous@),
            seeded: self.seeded,
        }
    }
}

fn has_fact(facts: &Vec<(String, PollSnapshot)>, path: &String, snap: PollSnapshot) -> (r: bool)
    ensures
        r == facts_view(facts@).contains((path@, snap)),
{
    let pc = to_chars(path.as_str());
    let mut i: usize = 0;
    while i < facts.len()
        invariant
            i <= facts@.len(),
            pc@ == path@,
            forall|k: int| 0 <= k < i ==> facts_view(facts@)[k] != (path@, snap),
        decreases facts@.len() - i,
    {
        if facts[i].1 == snap && chars_eq(&to_chars(facts[i].0.as_str()), &pc) {
            assert(facts_view(facts@)[i as int] == (path@, snap));
            return true;
        }
        i = i + 1;
    }
    false
}

fn has_path(facts: &Vec<(String, PollSnapshot)>, path: &String) -> (r: bool)
    ensures
        r == fact_paths(facts_view(facts@)).contains(path@),
{
    let pc = to_chars(path.as_str());
    let mut i: usize = 0;
    while i < facts.len()
        invariant
            i <= facts@.len(),
            pc@ == path@,
            forall|k: int| 0 <= k < i ==> fact_paths(facts_view(facts@))[k] != path@,
        decreases facts@.len() - i,
    {
        if chars_eq(&to_chars(facts[i].0.as_str()), &pc) {
            assert(fact_paths(facts_view(facts@))[i as int] == path@);
            return true;
        }
        i = i + 1;
    }
    false
}

impl PollScanner {
    pub fn new(watched: Vec<String>) -> (r: Self)
        ensures
            r@.watched == crate::text::views(watched@),
            r@.previous.len() == 0,
            !r@.seeded,
    {
        PollScanner { watched, previous: Vec::new(), seeded: false }
    }

    /// The watched roots the caller walks.
    pub fn watched(&self) -> (r: &[String])
        ensures
            crate::text::views(r@) == self@.watched,
    {
        self.watched.as_slice()
    }

    /// Reports the paths whose modified time or existence changed since the
    /// previous scan, given the facts of this scan; the first scan seeds the
    /// baseline and reports nothing.
    pub fn scan(&mut self, current: Vec<(String, PollSnapshot)>) -> (r: Vec<FileEvent>)
        ensures
            event_paths(r@) == scan_report(old(self)@.seeded, old(self)@.previous, facts_view(current@)),
            forall|i: int| 0 <= i < r@.len() ==> !(#[trigger] r@[i]).continuous,
            final(self)@.previous == facts_view(current@),
            final(self)@.seeded,
            final(self)@.watched == old(self)@.watched,
    {
        let mut changed: Vec<FileEvent> = Vec::new();
        let ghost prev = facts_view(self.previous@);
        let ghost cur = facts_view(current@);
        if self.seeded {
            let mut i: usize = 0;
            while i < current.len()
                invariant
                    i <= current@.len(),
                    prev == facts_view(self.previous@),
                    cur == facts_view(current@),
                    event_paths(changed@) == changed_paths(prev, cur.take(i as int)),
                    forall|k: int| 0 <= k < changed@.len() ==> !(#[trigger] changed@[k]).continuous,
                decreases current@.len() - i,
            {
                proof {
                    assert(cur.take(i + 1).drop_last() =~= cur.take(i as int));
                }
                if !has_fact(&self.previous, &current[i].0, current[i].1) {
                    changed.push(FileEvent { path: current[i].0.clone(), continuous: false });
                }
                i = i + 1;
                assert(event_paths(changed@) =~= changed_paths(prev, cur.take(i as int)));
            }
            assert(cur.take(cur.len() as int) =~= cur);
            let ghost first = event_paths(changed@);
            let mut j: usize = 0;
            while j < self.previous.len()
                invariant
                    j <= self.previous@.len(),
                    prev == facts_view(self.previous@),
                    cur == facts_view(current@),
                    event_paths(changed@) == first + removed_paths(prev.take(j as int), cur),
                    forall|k: int| 0 <= k < changed@.len() ==> !(#[trigger] changed@[k]).continuous,
                decreases self.previous@.len() - j,
            {
                let ghost before = event_paths(changed@);
                let ghost t = prev.take(j + 1);
                proof {
                    assert(t.drop_last() =~= prev.take(j as int));
                    assert(t.last() == prev[j as int]);
                    assert(prev[j as int].0 == self.previous@[j as int].0@);
                }
                let gone = !has_path(&current, &self.previous[j].0);
                if gone {
                    changed.push(FileEvent { path: self.previous[j].0.clone(), continuous: false });
                }
                proof {
                    let tail = if gone { seq![prev[j as int].0] } else { Seq::<Seq<char>>::empty() };
                    assert(removed_paths(t, cur) == removed_paths(prev.take(j as int), cur) + tail);
                    assert(event_paths(changed@) =~= before + tail);
                    assert(first + (removed_paths(prev.take(j as int), cur) + tail) =~= (first
                        + removed_paths(prev.take(j as int), cur)) + tail);
                }
                j = j + 1;
            }
            assert(prev.take(prev.len() as int) =~= prev);
        } else {
            assert(event_paths(changed@) =~= Seq::<Seq<char>>::empty());
        }
        self.previous = current;
        self.seeded = true;
        changed
    }
}

/// Scanning the same facts again reports nothing: only a change of a
/// modified time or of existence is ever reported.
pub proof fn law_unchanged_facts_report_nothing(seeded: bool, facts: Seq<(Seq<char>, PollSnapshot)>)
    ensures
        scan_report(seeded, facts, facts).len() == 0,
{
    assert forall|k: int| 0 <= k < facts.len() implies facts.contains(#[trigger] facts[k]) by {}
    assert forall|k: int| 0 <= k < facts.len() implies fact_paths(facts).contains(#[trigger] facts[k].0) by {
        assert(fact_paths(facts)[k] == facts[k].0);
    }
    lemma_nothing_changed(facts, facts);
    lemma_nothing_removed(facts, facts);
}

/// A path is reported as changed exactly when this scan recorded a fact
/// for it that the previous scan did not record.
proof fn lemma_changed_membership(
    prev: Seq<(Seq<char>, PollSnapshot)>,
    cur: Seq<(Seq<char>, PollSnapshot)>,
    x: Seq<char>,
)
    ensures
        changed_paths(prev, cur).contains(x) <==> exists|k: int|
            0 <= k < cur.len() && (#[trigger] cur[k]).0 == x && !prev.contains(cur[k]),
    decreases cur.len(),
{
    if cur.len() > 0 {
        let init = cur.drop_last();
        lemma_changed_membership(prev, init, x);
        let tail = if prev.contains(cur.last()) {
            Seq::<Seq<char>>::empty()
        } else {
            seq![cur.last().0]
        };
        let a = changed_paths(prev, init);
        if (a + tail).contains(x) {
            let m = choose|m: int| 0 <= m < (a + tail).len() && (a + tail)[m] == x;
            if m < a.len() {
                assert(a[m] == x);
                let k = choose|k: int| 0 <= k < init.len() && (#[trigger] init[k]).0 == x && !prev.contains(init[k]);
                assert(cur[k] == init[k]);
            } else {
                assert(tail[m - a.len()] == x);
                assert(cur[cur.len() - 1].0 == x);
            }
        }
        if exists|k: int| 0 <= k < cur.len() && (#[trigger] cur[k]).0 == x && !prev.contains(cur[k]) {
            let k = choose|k: int| 0 <= k < cur.len() && (#[trigger] cur[k]).0 == x && !prev.contains(cur[k]);
            if k < cur.len() - 1 {
                assert(init[k] == cur[k]);
                assert(a.contains(x));
                let m = choose|m: int| 0 <= m < a.len() && a[m] == x;
                assert((a + tail)[m] == x);
            } else {
                assert(tail == seq![x]);
                assert((a + tail)[a.len() as int] == x);
            }
        }
    }
}

/// A path is reported as removed exactly when the previous scan recorded
/// it and this scan records no fact for it.
proof fn lemma_removed_membership(
    prev: Seq<(Seq<char>, PollSnapshot)>,
    cur: Seq<(Seq<char>, PollSnapshot)>,
    x: Seq<char>,
)
    ensures
        removed_paths(prev, cur).contains(x) <==> (fact_paths(prev).contains(x) && !fact_paths(
            cur,
        ).contains(x)),
    decreases prev.len(),
{
    if prev.len() > 0 {
        let init = prev.drop_last();
        lemma_removed_membership(init, cur, x);
        let tail = if fact_paths(cur).contains(prev.last().0) {
            Seq::<Seq<char>>::empty()
        } else {
            seq![prev.last().0]
        };
        let a = removed_paths(init, cur);
        assert(fact_paths(prev) =~= fact_paths(init).push(prev.last().0));
        if (a + tail).contains(x) {
            let m = choose|m: int| 0 <= m < (a + tail).len() && (a + tail)[m] == x;
            if m < a.len() {
                assert(a[m] == x);
                let j = choose|j: int| 0 <= j < fact_paths(init).len() && fact_paths(init)[j] == x;
                assert(fact_paths(prev)[j] == x);
            } else {
                assert(tail[m - a.len()] == x);
                assert(fact_paths(prev)[prev.len() - 1] == x);
            }
        }
        if fact_paths(prev).contains(x) && !fact_paths(cur).contains(x) {
            let j = choose|j: int| 0 <= j < fact_paths(prev).len() && fact_paths(prev)[j] == x;
            if j < prev.len() - 1 {
                assert(fact_paths(init)[j] == x);
                assert(a.contains(x));
                let m = choose|m: int| 0 <= m < a.len() && a[m] == x;
                assert((a + tail)[m] == x);
            } else {
                assert(prev.last().0 == x);
                assert((a + tail)[a.len() as int] == x);
            }
        }
    }
}

/// A scan reports exactly the paths whose facts differ from the previous
/// scan: a path with a new or changed modified time, or one that appeared,
/// or one that disappeared; nothing else. The first scan reports nothing.
pub proof fn law_scan_reports_exactly_differing_paths(
    seeded: bool,
    prev: Seq<(Seq<char>, PollSnapshot)>,
    cur: Seq<(Seq<char>, PollSnapshot)>,
    x: Seq<char>,
)
    ensures
        !seeded ==> scan_report(seeded, prev, cur).len() == 0,
        seeded ==> (scan_report(seeded, prev, cur).contains(x) <==> ((exists|k: int|
            0 <= k < cur.len() && (#[trigger] cur[k]).0 == x && !prev.contains(cur[k])) || (
        fact_paths(prev).contains(x) && !fact_paths(cur).contains(x)))),
{
    lemma_changed_membership(prev, cur, x);
    lemma_removed_membership(prev, cur, x);
    if seeded {
        let a = changed_paths(prev, cur);
        let b = removed_paths(prev, cur);
        if (a + b).contains(x) {
            let m = choose|m: int| 0 <= m < (a + b).len() && (a + b)[m] == x;
            if m < a.len() {
                assert(a[m] == x);
            } else {
                assert(b[m - a.len()] == x);
            }
        }
        if a.contains(x) {
            let m = choose|m: int| 0 <= m < a.len() && a[m] == x;
            assert((a + b)[m] == x);
        }
        if b.contains(x) {
            let m = choose|m: int| 0 <= m < b.len() && b[m] == x;
            assert((a + b)[a.len() + m] == x);
        }
    }
}

proof fn lemma_nothing_changed(prev: Seq<(Seq<char>, PollSnapshot)>, cur: Seq<(Seq<char>, PollSnapshot)>)
    requires
        forall|k: int| 0 <= k < cur.len() ==> prev.contains(#[trigger] cur[k]),
    ensures
        changed_paths(prev, cur).len() == 0,
    decreases cur.len(),
{
    if cur.len() > 0 {
        assert(prev.contains(cur[cur.len() - 1]));
        lemma_nothing_changed(prev, cur.drop_last());
    }
}

proof fn lemma_nothing_removed(prev: Seq<(Seq<char>, PollSnapshot)>, cur: Seq<(Seq<char>, PollSnapshot)>)
    requires
        forall|k: int| 0 <= k < prev.len() ==> fact_paths(cur).contains(#[trigger] prev[k].0),
    ensures
        removed_paths(prev, cur).len() == 0,
    decreases prev.len(),
{
    if prev.len() > 0 {
        assert(fact_paths(cur).contains(prev[prev.len() - 1].0));
        lemma_nothing_removed(prev.drop_last(), cur);
    }
}

/// Declares `std::sync::mpsc::Sender`, the sending end of a channel;
/// nothing is claimed of its contents.
#[verifier::external_type_specification]
#[verifier::external_body]
#[verifier::reject_recursive_types(T)]
pub struct ExSender<T>(Sender<T>);

/// Declares `std::sync::mpsc::Receiver`, the receiving end of a channel;
/// nothing is claimed of its contents.
#[verifier::external_type_specification]
#[verifier::external_body]
#[verifier::reject_recursive_types(T)]
pub struct ExReceiver<T>(Receiver<T>);

/// One live root-set swap requested by a config reload: the complete new
/// root list after commit, and where the backend acknowledges once it has
/// applied the swap.
#[derive(Clone, Debug)]
pub struct RootSwap {
    pub roots: Vec<String>,
    pub ack: Option<Sender<Result<(), String>>>,
}

/// Publishes the complete new root set to the running backend; disabled
/// when the backend was started without reload support.
#[derive(Clone, Debug)]
pub struct RootSwapPublisher {
    sender: Option<Sender<RootSwap>>,
}

/// How long a swap waits for the backend's acknowledgement.
pub const SWAP_ACK_TIMEOUT_MS: u64 = 5000;

/// A fresh channel for one acknowledgement (`std::sync::mpsc::channel`).
#[verifier::external_body]
fn ack_channel() -> (Sender<Result<(), String>>, Receiver<Result<(), String>>) {
    std::sync::mpsc::channel()
}

/// Hands a swap to the backend (`Sender::send`); `false` when the backend's
/// receiver is gone. Nothing is stated of the outcome: it depends on the
/// other thread.
#[verifier::external_body]
fn send_swap(sender: &Sender<RootSwap>, swap: RootSwap) -> bool {
    sender.send(swap).is_ok()
}

/// Waits up to `timeout_ms` for the backend's acknowledgement
/// (`Receiver::recv_timeout`); `None` on timeout or a closed channel.
/// Nothing is stated of the outcome: it depends on the other thread and on
/// time.
#[verifier::external_body]
fn receive_ack(rx: &Receiver<Result<(), String>>, timeout_ms: u64) -> Option<Result<(), String>> {
    rx.recv_timeout(std::time::Duration::from_millis(timeout_ms)).ok()
}

/// The message of a swap on a disabled publisher.
pub open spec fn no_reload_message() -> Seq<char> {
    "backend started without reload support"@
}

/// The result of a swap that was handed to a backend: a closed channel and
/// a missing acknowledgement are errors; otherwise the backend's own
/// acknowledgement.
pub open spec fn swap_outcome_spec(sent: bool, ack: Option<Result<(), Seq<char>>>) -> Result<(), Seq<char>> {
    if !sent {
        Err("root-swap channel closed"@)
    } else {
        match ack {
            None => Err("root-swap acknowledgement timed out"@),
            Some(a) => a,
        }
    }
}

pub open spec fn result_view(r: Result<(), String>) -> Result<(), Seq<char>> {
    match r {
        Ok(()) => Ok(()),
        Err(m) => Err(m@),
    }
}

pub open spec fn opt_result_view(o: Option<Result<(), String>>) -> Option<Result<(), Seq<char>>> {
    match o {
        Some(a) => Some(result_view(a)),
        None => None,
    }
}

/// Decides a swap's result from whether it was sent and what came back.
pub fn swap_outcome(sent: bool, ack: Option<Result<(), String>>) -> (r: Result<(), String>)
    ensures
        result_view(r) == swap_outcome_spec(sent, opt_result_view(ack)),
{
    if !sent {
        return Err(from_chars(&to_chars("root-swap channel closed")));
    }
    match ack {
        None => Err(from_chars(&to_chars("root-swap acknowledgement timed out"))),
        Some(a) => a,
    }
}

/// The message that carries one swap to the backend: the complete new root
/// list, unchanged, and where to acknowledge it.
pub fn swap_request(roots: Vec<String>, ack: Sender<Result<(), String>>) -> (r: RootSwap)
    ensures
        views(r.roots@) == views(roots@),
        r.ack == Some(ack),
{
    RootSwap { roots, ack: Some(ack) }
}

impl RootSwapPublisher {
    /// Whether the publisher is connected to a running backend.
    pub closed spec fn is_connected(&self) -> bool {
        self.sender is Some
    }

    /// A live publisher connected to the running backend.
    pub fn new(sender: Sender<RootSwap>) -> (r: Self)
        ensures
            r.is_connected(),
    {
        RootSwapPublisher { sender: Some(sender) }
    }

    /// A disabled publisher for backends started without reload support.
    pub fn disabled() -> (r: Self)
        ensures
            !r.is_connected(),
    {
        RootSwapPublisher { sender: None }
    }

    /// Swaps the live root set synchronously: hands the roots to the
    /// backend and waits for its acknowledgement. A disabled publisher
    /// refuses; for a connected one, `swap_outcome` decides from what the
    /// channel gave back, which depends on the backend thread and on time.
    pub fn swap(&self, roots: Vec<String>) -> (r: Result<(), String>)
        ensures
            !self.is_connected() ==> result_view(r) == Err::<(), Seq<char>>(no_reload_message()),
            self.is_connected() ==> exists|sent: bool, ack: Option<Result<(), Seq<char>>>|
                (!sent ==> ack is None) && result_view(r) == swap_outcome_spec(sent, ack),
    {
        match &self.sender {
            Some(sender) => {
                let (ack_tx, ack_rx) = ack_channel();
                let sent = send_swap(sender, swap_request(roots, ack_tx));
                let ack = if sent {
                    receive_ack(&ack_rx, SWAP_ACK_TIMEOUT_MS)
                } else {
                    None
                };
                let r = swap_outcome(sent, ack);
                assert(!sent ==> opt_result_view(ack) is None);
                assert(result_view(r) == swap_outcome_spec(sent, opt_result_view(ack)));
                r
            },
            None => Err(from_chars(&to_chars("backend started without reload support"))),
        }
    }
}

} // verus!
