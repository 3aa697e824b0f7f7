//! Retained task output retrieval: which generation and which tasks a
//! request selects (an exact task wins, one canonical prefix candidate is
//! resolved read-only, ambiguity never guesses), the deterministic page
//! plan (task identity order, stdout before stderr), and the validation of
//! an opaque paging cursor. Capturing and serializing are performed by the
//! caller.
use vstd::prelude::*;

use crate::identity::sorted_unique;
use crate::text::{
    decimal, decimal_string, from_chars, owned, split, split_exec, starts_with,
    starts_with_exec, strictly_sorted, to_chars, trim, trim_exec, views,
};

verus! {

/// Typed retrieval failure: each variant maps to one stable error code with
/// structured data, so clients never parse message text.
#[derive(Clone, Debug, PartialEq, Eq)]
pub enum RetrievalError {
    /// Generation unknown or evicted; `retained` lists the retained
    /// generations (empty when nothing is retained).
    GenerationNotFound { retained: Vec<u64> },
    /// The requested task has no retained output in that generation.
    TaskNotFound { task: String, candidates: Vec<String>, ambiguous: bool },
    /// Stale or tampered paging cursor.
    InvalidCursor { reason: String },
}

/// The view of a retrieval error.
pub enum RetrievalErrorView {
    GenerationNotFound(Seq<u64>),
    TaskNotFound { task: Seq<char>, candidates: Seq<Seq<char>>, ambiguous: bool },
    InvalidCursor(Seq<char>),
}

pub open spec fn error_view(e: RetrievalError) -> RetrievalErrorView {
    match e {
        RetrievalError::GenerationNotFound { retained } => RetrievalErrorView::GenerationNotFound(
            retained@,
        ),
        RetrievalError::TaskNotFound { task, candidates, ambiguous } => RetrievalErrorView::TaskNotFound {
            task: task@,
            candidates: views(candidates@),
            ambiguous,
        },
        RetrievalError::InvalidCursor { reason } => RetrievalErrorView::InvalidCursor(reason@),
    }
}

/// Finds the retained entry of `generation` among the retained generations,
/// in retention order; an unknown one is reported with every retained
/// generation.
pub fn find_generation(retained: &[u64], generation: u64) -> (r: Result<usize, RetrievalError>)
    ensures
        match r {
            Ok(i) => i < retained@.len() && retained@[i as int] == generation && forall|j: int|
                0 <= j < i ==> retained@[j] != generation,
            Err(e) => error_view(e) == RetrievalErrorView::GenerationNotFound(retained@) && forall|
                j: int,
            |
                0 <= j < retained@.len() ==> retained@[j] != generation,
        },
{
    let mut i: usize = 0;
    while i < retained.len()
        invariant
            i <= retained@.len(),
            forall|j: int| 0 <= j < i ==> retained@[j] != generation,
        decreases retained@.len() - i,
    {
        if retained[i] == generation {
            return Ok(i);
        }
        i = i + 1;
    }
    let mut all: Vec<u64> = Vec::new();
    let mut k: usize = 0;
    while k < retained.len()
        invariant
            k <= retained@.len(),
            all@ == retained@.take(k as int),
        decreases retained@.len() - k,
    {
        all.push(retained[k]);
        k = k + 1;
        assert(all@ =~= retained@.take(k as int));
    }
    assert(retained@.take(retained@.len() as int) =~= retained@);
    Err(RetrievalError::GenerationNotFound { retained: all })
}

/// The requested task after trimming; an empty request asks for every task.
pub open spec fn wanted_spec(task: Option<Seq<char>>) -> Option<Seq<char>> {
    match task {
        Some(t) => if trim(t).len() > 0 {
            Some(trim(t))
        } else {
            None
        },
        None => None,
    }
}

pub fn wanted_task(task: Option<&str>) -> (r: Option<String>)
    ensures
        match r {
            Some(s) => wanted_spec(
                match task {
                    Some(t) => Some(t@),
                    None => None,
                },
            ) == Some(s@),
            None => wanted_spec(
                match task {
                    Some(t) => Some(t@),
                    None => None,
                },
            ) is None,
        },
{
    match task {
        None => None,
        Some(t) => {
            let c = trim_exec(&to_chars(t));
            if c.len() == 0 {
                None
            } else {
                Some(from_chars(&c))
            }
        },
    }
}

/// The ids equal to `w`, in order.
pub open spec fn equal_ids(ids: Seq<Seq<char>>, w: Seq<char>) -> Seq<Seq<char>> {
    ids.filter(|id: Seq<char>| id == w)
}

/// The ids that `w` prefixes, in order: the canonical candidates.
pub open spec fn prefixed_ids(ids: Seq<Seq<char>>, w: Seq<char>) -> Seq<Seq<char>> {
    ids.filter(|id: Seq<char>| starts_with(id, w))
}

/// Task selection for a requested task: the exact task when retained;
/// otherwise the one canonical candidate, reported as resolved; otherwise
/// an error that lists the ambiguous candidates, or every retained id when
/// there is none.
pub open spec fn resolve_spec(ids: Seq<Seq<char>>, w: Seq<char>) -> Result<
    (Seq<Seq<char>>, Option<Seq<char>>),
    RetrievalErrorView,
> {
    if ids.contains(w) {
        Ok((equal_ids(ids, w), None))
    } else {
        let canonical = prefixed_ids(ids, w);
        if canonical.len() == 1 {
            Ok((equal_ids(ids, canonical[0]), Some(canonical[0])))
        } else if canonical.len() > 1 {
            Err(RetrievalErrorView::TaskNotFound { task: w, candidates: canonical, ambiguous: true })
        } else {
            Err(RetrievalErrorView::TaskNotFound { task: w, candidates: ids, ambiguous: false })
        }
    }
}

fn filter_equal(ids: &Vec<String>, w: &String) -> (r: Vec<String>)
    ensures
        views(r@) == equal_ids(views(ids@), w@),
{
    let ghost vs = views(ids@);
    let wc = to_chars(w.as_str());
    let mut out: Vec<String> = Vec::new();
    let mut i: usize = 0;
    while i < ids.len()
        invariant
            i <= ids@.len(),
            vs == views(ids@),
            wc@ == w@,
            views(out@) == vs.take(i as int).filter(|id: Seq<char>| id == w@),
        decreases ids@.len() - i,
    {
        if crate::text::chars_eq(&to_chars(ids[i].as_str()), &wc) {
            out.push(ids[i].clone());
        }
        proof {
            let t = vs.take(i + 1);
            assert(t.drop_last() =~= vs.take(i as int));
            assert(t.last() == ids@[i as int]@);
            reveal(Seq::filter);
            assert(views(out@) =~= t.filter(|id: Seq<char>| id == w@));
        }
        i = i + 1;
    }
    assert(vs.take(ids@.len() as int) =~= vs);
    out
}

fn filter_prefixed(ids: &Vec<String>, w: &String) -> (r: Vec<String>)
    ensures
        views(r@) == prefixed_ids(views(ids@), w@),
{
    let ghost vs = views(ids@);
    let wc = to_chars(w.as_str());
    let mut out: Vec<String> = Vec::new();
    let mut i: usize = 0;
    while i < ids.len()
        invariant
            i <= ids@.len(),
            vs == views(ids@),
            wc@ == w@,
            views(out@) == vs.take(i as int).filter(|id: Seq<char>| starts_with(id, w@)),
        decreases ids@.len() - i,
    {
        if starts_with_exec(&to_chars(ids[i].as_str()), &wc) {
            out.push(ids[i].clone());
        }
        proof {
            let t = vs.take(i + 1);
            assert(t.drop_last() =~= vs.take(i as int));
            assert(t.last() == ids@[i as int]@);
            reveal(Seq::filter);
            assert(views(out@) =~= t.filter(|id: Seq<char>| starts_with(id, w@)));
        }
        i = i + 1;
    }
    assert(vs.take(ids@.len() as int) =~= vs);
    out
}

/// Selects the retained task ids a request for task `w` retrieves, and the
/// exact id it resolved to when the request was a canonical prefix.
pub fn resolve_task(ids: &Vec<String>, w: &String) -> (r: Result<(Vec<String>, Option<String>), RetrievalError>)
    ensures
        match r {
            Ok((sel, res)) => resolve_spec(views(ids@), w@) == Ok::<_, RetrievalErrorView>(
                (
                    views(sel@),
                    match res {
                        Some(s) => Some(s@),
                        None => None,
                    },
                ),
            ),
            Err(e) => resolve_spec(views(ids@), w@) == Err::<(Seq<Seq<char>>, Option<Seq<char>>), _>(
                error_view(e),
            ),
        },
{
    let exact = filter_equal(ids, w);
    proof {
        let vs = views(ids@);
        let f = |id: Seq<char>| id == w@;
        if vs.contains(w@) {
            let k = choose|k: int| 0 <= k < vs.len() && vs[k] == w@;
            vs.lemma_filter_contains(f, k);
        }
        if vs.filter(f).len() > 0 {
            vs.lemma_filter_contains_rev(f, vs.filter(f)[0]);
            assert(vs.filter(f).contains(vs.filter(f)[0]));
            vs.lemma_filter_pred(f, 0);
        }
    }
    if exact.len() > 0 {
        return Ok((exact, None));
    }
    let canonical = filter_prefixed(ids, w);
    if canonical.len() == 1 {
        let single = canonical[0].clone();
        let sel = filter_equal(ids, &single);
        return Ok((sel, Some(single)));
    }
    if canonical.len() > 1 {
        return Err(RetrievalError::TaskNotFound { task: w.clone(), candidates: canonical, ambiguous: true });
    }
    Err(
        RetrievalError::TaskNotFound {
            task: w.clone(),
            candidates: crate::text::clone_strings(ids),
            ambiguous: false,
        },
    )
}

/// The deterministic page plan: for each task id in order, its stdout and
/// then its stderr position, only the requested stream when one is named.
pub open spec fn plan_spec(ids: Seq<Seq<char>>, stream: Option<Seq<char>>) -> Seq<(Seq<char>, bool)>
    decreases ids.len(),
{
    if ids.len() == 0 {
        Seq::empty()
    } else {
        plan_spec(ids.drop_last(), stream) + stream_positions(ids.last(), stream)
    }
}

pub open spec fn stream_positions(id: Seq<char>, stream: Option<Seq<char>>) -> Seq<(Seq<char>, bool)> {
    match stream {
        None => seq![(id, false), (id, true)],
        Some(w) => if w == "stderr"@ {
            seq![(id, true)]
        } else {
            seq![(id, false)]
        },
    }
}

pub open spec fn plan_views(v: Seq<(String, bool)>) -> Seq<(Seq<char>, bool)> {
    v.map_values(|p: (String, bool)| (p.0@, p.1))
}

/// The page plan of the selected task ids, taken in ascending identity
/// order (the ids of one generation are distinct).
pub fn page_plan(selected: &Vec<String>, stream: Option<&str>) -> (r: Vec<(String, bool)>)
    ensures
        exists|s: Seq<Seq<char>>|
            strictly_sorted(s) && s.to_set() == views(selected@).to_set() && plan_views(r@)
                == plan_spec(
                s,
                match stream {
                    Some(x) => Some(x@),
                    None => None,
                },
            ),
{
    let ids = sorted_unique(selected);
    let ghost vs = views(ids@);
    let ghost st = match stream {
        Some(s) => Some(s@),
        None => None,
    };
    let stderr_only: Option<bool> = match stream {
        None => None,
        Some(w) => Some(crate::text::chars_eq(&to_chars(w), &to_chars("stderr"))),
    };
    proof {
        reveal_strlit("stderr");
    }
    let mut out: Vec<(String, bool)> = Vec::new();
    let mut i: usize = 0;
    while i < ids.len()
        invariant
            i <= ids@.len(),
            vs == views(ids@),
            st == (match stream {
                Some(s) => Some(s@),
                None => None,
            }),
            match stderr_only {
                None => st is None,
                Some(b) => st matches Some(w) && b == (w == "stderr"@),
            },
            plan_views(out@) == plan_spec(vs.take(i as int), st),
        decreases ids@.len() - i,
    {
        let ghost before = plan_views(out@);
        proof {
            assert(vs.take(i + 1).drop_last() =~= vs.take(i as int));
            assert(vs.take(i + 1).last() == ids@[i as int]@);
        }
        match stderr_only {
            None => {
                out.push((ids[i].clone(), false));
                out.push((ids[i].clone(), true));
            },
            Some(b) => {
                out.push((ids[i].clone(), b));
            },
        }
        proof {
            assert(plan_views(out@) =~= before + stream_positions(ids@[i as int]@, st));
        }
        i = i + 1;
    }
    assert(vs.take(ids@.len() as int) =~= vs);
    assert(strictly_sorted(vs) && vs.to_set() == views(selected@).to_set());
    out
}

/// Whether `c` is an ASCII decimal digit.
pub open spec fn is_digit(c: char) -> bool {
    '0' <= c && c <= '9'
}

/// The value of a string of decimal digits.
pub open spec fn digits_value(d: Seq<char>) -> nat
    decreases d.len(),
{
    if d.len() == 0 {
        0
    } else {
        (digits_value(d.drop_last()) * 10 + (d.last() as int - '0' as int)) as nat
    }
}

/// The digits of an unsigned integer text: an optional leading `+` is
/// skipped.
pub open spec fn unsigned_digits(s: Seq<char>) -> Seq<char> {
    if s.len() > 0 && s[0] == '+' {
        s.drop_first()
    } else {
        s
    }
}

/// How `str::parse` reads an unsigned integer of at most `max`: an optional
/// `+`, then one or more ASCII digits; anything else, or a value above
/// `max`, is refused.
pub open spec fn parse_unsigned(s: Seq<char>, max: nat) -> Option<nat> {
    let d = unsigned_digits(s);
    if d.len() == 0 || !(forall|i: int| 0 <= i < d.len() ==> is_digit(#[trigger] d[i]))
        || digits_value(d) > max {
        None
    } else {
        Some(digits_value(d))
    }
}

/// `str::parse::<u64>`.
pub open spec fn parsed_u64(s: Seq<char>) -> Option<u64> {
    match parse_unsigned(s, u64::MAX as nat) {
        Some(n) => Some(n as u64),
        None => None,
    }
}

/// `str::parse::<usize>`.
pub open spec fn parsed_usize(s: Seq<char>) -> Option<usize> {
    match parse_unsigned(s, usize::MAX as nat) {
        Some(n) => Some(n as usize),
        None => None,
    }
}

proof fn lemma_digits_prefix(d: Seq<char>, k: int)
    requires
        0 <= k <= d.len(),
        forall|i: int| 0 <= i < d.len() ==> is_digit(#[trigger] d[i]),
    ensures
        digits_value(d.take(k)) <= digits_value(d),
    decreases d.len() - k,
{
    if k < d.len() {
        lemma_digits_prefix(d, k + 1);
        assert(d.take(k + 1).drop_last() =~= d.take(k));
        assert(is_digit(d[k]));
    } else {
        assert(d.take(k) =~= d);
    }
}

fn parse_digits(s: &str, max: u64) -> (r: Option<u64>)
    ensures
        match r {
            Some(n) => parse_unsigned(s@, max as nat) == Some(n as nat),
            None => parse_unsigned(s@, max as nat) is None,
        },
{
    let c = to_chars(s);
    let start: usize = if c.len() > 0 && c[0] == '+' {
        1
    } else {
        0
    };
    let ghost d = unsigned_digits(s@);
    proof {
        assert(d =~= c@.skip(start as int));
    }
    if start >= c.len() {
        return None;
    }
    let mut acc: u128 = 0;
    let mut i: usize = start;
    while i < c.len()
        invariant
            start <= i <= c@.len(),
            c@ == s@,
            d == c@.skip(start as int),
            d == unsigned_digits(s@),
            acc == digits_value(d.take(i - start)),
            acc <= max,
            forall|k: int| 0 <= k < i - start ==> is_digit(#[trigger] d[k]),
        decreases c@.len() - i,
    {
        let ch = c[i];
        assert(d[i - start] == ch);
        if !('0' <= ch && ch <= '9') {
            proof {
                assert(!is_digit(d[i - start]));
                assert(!(forall|k: int| 0 <= k < d.len() ==> is_digit(#[trigger] d[k])));
                assert(parse_unsigned(s@, max as nat) is None);
            }
            return None;
        }
        proof {
            assert(d.take(i + 1 - start).drop_last() =~= d.take(i - start));
            assert(d.take(i + 1 - start).last() == ch);
        }
        let digit = (ch as u32 - '0' as u32) as u128;
        acc = acc * 10 + digit;
        assert(acc == digits_value(d.take(i + 1 - start)));
        if acc > max as u128 {
            proof {
                if forall|k: int| 0 <= k < d.len() ==> is_digit(#[trigger] d[k]) {
                    lemma_digits_prefix(d, i + 1 - start);
                    assert(digits_value(d) > max);
                }
                assert(parse_unsigned(s@, max as nat) is None);
            }
            return None;
        }
        i = i + 1;
    }
    assert(d.take(d.len() as int) =~= d);
    Some(acc as u64)
}

/// The `Debug` rendering of a string (quoted, escaped).
pub uninterp spec fn debug_quoted(s: Seq<char>) -> Seq<char>;

/// `s.parse::<u64>().ok()`.
fn parse_u64(s: &str) -> (r: Option<u64>)
    ensures
        r == parsed_u64(s@),
{
    parse_digits(s, u64::MAX)
}

/// `s.parse::<usize>().ok()`.
fn parse_usize(s: &str) -> (r: Option<usize>)
    ensures
        r == parsed_usize(s@),
{
    match parse_digits(s, usize::MAX as u64) {
        Some(n) => Some(n as usize),
        None => None,
    }
}

/// `format!("{s:?}")`.
#[verifier::external_body]
fn debug_string(s: &str) -> (r: String)
    ensures
        r@ == debug_quoted(s@),
{
    format!("{s:?}")
}

/// Where a cursor resumes, or why it is refused. `positions` holds, for each
/// plan position, whether it is the stderr stream and how many bytes its
/// stream retains.
pub open spec fn cursor_spec(raw: Seq<char>, generation: u64, positions: Seq<(bool, u64)>) -> Result<(usize, usize), Seq<char>> {
    let parts = split(raw, "|"@);
    if parts.len() != 4 {
        Err("cursor must be '<gen>|<plan>|<stream>|<offset>', got "@ + debug_quoted(raw))
    } else if parsed_u64(parts[0]) is None || parsed_usize(parts[1]) is None || parsed_usize(
        parts[2],
    ) is None || parsed_usize(parts[3]) is None {
        Err("cursor is not numeric: "@ + debug_quoted(raw))
    } else {
        let g = parsed_u64(parts[0])->0;
        let p = parsed_usize(parts[1])->0;
        let s = parsed_usize(parts[2])->0;
        let o = parsed_usize(parts[3])->0;
        if g != generation {
            Err(
                "cursor generation "@ + decimal(g as nat) + " does not match requested generation "@
                    + decimal(generation as nat),
            )
        } else if p >= positions.len() {
            Err(
                "cursor plan index "@ + decimal(p as nat) + " out of range ("@ + decimal(
                    positions.len(),
                ) + " positions)"@,
            )
        } else if s != (if positions[p as int].0 {
            1usize
        } else {
            0usize
        }) {
            Err(
                "cursor stream index "@ + decimal(s as nat) + " does not match position "@ + decimal(
                    p as nat,
                ),
            )
        } else if o > positions[p as int].1 {
            Err(
                "cursor byte offset "@ + decimal(o as nat) + " beyond retained "@ + decimal(
                    positions[p as int].1 as nat,
                ) + " bytes"@,
            )
        } else {
            Ok((p, o))
        }
    }
}

fn cat(a: &str, b: &str) -> (r: String)
    ensures
        r@ == a@ + b@,
{
    let mut s = owned(a);
    s.append(b);
    s
}

/// Validates an opaque paging cursor `<generation>|<plan index>|<stream
/// 0|1>|<byte offset>` against the requested generation and the page plan;
/// returns the plan position and byte offset to resume from.
pub fn parse_cursor(raw: &str, generation: u64, positions: &[(bool, u64)]) -> (r: Result<(usize, usize), RetrievalError>)
    ensures
        match r {
            Ok(x) => cursor_spec(raw@, generation, positions@) == Ok::<(usize, usize), Seq<char>>(x),
            Err(e) => e matches RetrievalError::InvalidCursor { reason } && cursor_spec(
                raw@,
                generation,
                positions@,
            ) == Err::<(usize, usize), Seq<char>>(reason@),
        },
{
    proof {
        reveal_strlit("|");
    }
    let rc = to_chars(raw);
    let sep = to_chars("|");
    let parts = split_exec(&rc, &sep);
    if parts.len() != 4 {
        let d = debug_string(raw);
        return Err(RetrievalError::InvalidCursor {
            reason: cat("cursor must be '<gen>|<plan>|<stream>|<offset>', got ", d.as_str()),
        });
    }
    let p0 = from_chars(&parts[0]);
    let p1 = from_chars(&parts[1]);
    let p2 = from_chars(&parts[2]);
    let p3 = from_chars(&parts[3]);
    let g = parse_u64(p0.as_str());
    let p = parse_usize(p1.as_str());
    let s = parse_usize(p2.as_str());
    let o = parse_usize(p3.as_str());
    if g.is_none() || p.is_none() || s.is_none() || o.is_none() {
        let d = debug_string(raw);
        return Err(RetrievalError::InvalidCursor { reason: cat("cursor is not numeric: ", d.as_str()) });
    }
    let g = g.unwrap();
    let p = p.unwrap();
    let s = s.unwrap();
    let o = o.unwrap();
    if g != generation {
        let mut m = cat("cursor generation ", decimal_string(g).as_str());
        m.append(" does not match requested generation ");
        m.append(decimal_string(generation).as_str());
        return Err(RetrievalError::InvalidCursor { reason: m });
    }
    if p >= positions.len() {
        let mut m = cat("cursor plan index ", decimal_string(p as u64).as_str());
        m.append(" out of range (");
        m.append(decimal_string(positions.len() as u64).as_str());
        m.append(" positions)");
        return Err(RetrievalError::InvalidCursor { reason: m });
    }
    let expected: usize = if positions[p].0 {
        1
    } else {
        0
    };
    if s != expected {
        let mut m = cat("cursor stream index ", decimal_string(s as u64).as_str());
        m.append(" does not match position ");
        m.append(decimal_string(p as u64).as_str());
        return Err(RetrievalError::InvalidCursor { reason: m });
    }
    if o as u64 > positions[p].1 {
        let mut m = cat("cursor byte offset ", decimal_string(o as u64).as_str());
        m.append(" beyond retained ");
        m.append(decimal_string(positions[p].1).as_str());
        m.append(" bytes");
        return Err(RetrievalError::InvalidCursor { reason: m });
    }
    Ok((p, o))
}

/// The cursor of the page after one that stopped at byte `offset` of plan
/// position `index`.
pub open spec fn next_cursor_spec(generation: u64, index: usize, stderr: bool, offset: usize) -> Seq<char> {
    decimal(generation as nat) + "|"@ + decimal(index as nat) + "|"@ + (if stderr {
        "1"@
    } else {
        "0"@
    }) + "|"@ + decimal(offset as nat)
}

proof fn lemma_digit_char(d: nat)
    requires
        d < 10,
    ensures
        is_digit(crate::text::digit_char(d)),
        crate::text::digit_char(d) as int - '0' as int == d,
{
}

/// A decimal rendering is all digits, never empty, and reads back as its
/// number.
proof fn lemma_decimal_reads_back(n: nat)
    ensures
        decimal(n).len() > 0,
        forall|i: int| 0 <= i < decimal(n).len() ==> is_digit(#[trigger] decimal(n)[i]),
        digits_value(decimal(n)) == n,
    decreases n,
{
    assert(digits_value(Seq::<char>::empty()) == 0);
    if n < 10 {
        lemma_digit_char(n);
        assert(decimal(n) =~= seq![crate::text::digit_char(n)]);
        assert(decimal(n).drop_last() =~= Seq::<char>::empty());
    } else {
        lemma_decimal_reads_back(n / 10);
        lemma_digit_char(n % 10);
        let p = decimal(n / 10);
        assert(decimal(n) == p.push(crate::text::digit_char(n % 10)));
        assert(decimal(n).drop_last() =~= p);
        assert(n == (n / 10) * 10 + n % 10);
    }
}

/// The first `|` of `s` at or after `j` is at `k` when `s[k]` is one and
/// none comes between.
proof fn lemma_find_bar(s: Seq<char>, j: int, k: int)
    requires
        0 <= j <= k < s.len(),
        s[k] == '|',
        forall|m: int| j <= m < k ==> s[m] != '|',
    ensures
        crate::text::find_from(s, seq!['|'], j) == k,
    decreases k - j,
{
    let sep = seq!['|'];
    assert(sep.len() == 1);
    assert(s.subrange(j, j + 1) =~= seq![s[j]]);
    if j < k {
        assert(seq![s[j]][0] != sep[0]);
        assert(!crate::text::matches_at(s, sep, j));
        lemma_find_bar(s, j + 1, k);
    } else {
        assert(crate::text::matches_at(s, sep, j));
    }
}

/// No `|` at or after `j`: the search finds nothing.
proof fn lemma_find_no_bar(s: Seq<char>, j: int)
    requires
        0 <= j,
        forall|m: int| j <= m < s.len() ==> s[m] != '|',
    ensures
        crate::text::find_from(s, seq!['|'], j) == -1,
    decreases s.len() + 1 - j,
{
    let sep = seq!['|'];
    assert(sep.len() == 1);
    if j + 1 <= s.len() {
        assert(s.subrange(j, j + 1) =~= seq![s[j]]);
        assert(seq![s[j]][0] != sep[0]);
        assert(!crate::text::matches_at(s, sep, j));
        lemma_find_no_bar(s, j + 1);
    }
}

/// One piece of a split on `|`: the text up to the next `|`, then the
/// pieces after it.
proof fn lemma_split_step(s: Seq<char>, start: int, k: int)
    requires
        0 <= start <= k < s.len(),
        s[k] == '|',
        forall|m: int| start <= m < k ==> s[m] != '|',
    ensures
        crate::text::split_from(s, seq!['|'], start) == seq![s.subrange(start, k)]
            + crate::text::split_from(s, seq!['|'], k + 1),
{
    lemma_find_bar(s, start, k);
}

/// The last piece of a split on `|`: the rest of the text.
proof fn lemma_split_end(s: Seq<char>, start: int)
    requires
        0 <= start <= s.len(),
        forall|m: int| start <= m < s.len() ==> s[m] != '|',
    ensures
        crate::text::split_from(s, seq!['|'], start) == seq![s.subrange(start, s.len() as int)],
{
    lemma_find_no_bar(s, start);
}

/// A cursor a page hands out is accepted by the next request for the same
/// generation and plan, and resumes exactly where the page stopped.
pub proof fn law_cursor_round_trips(
    generation: u64,
    index: usize,
    stderr: bool,
    offset: usize,
    positions: Seq<(bool, u64)>,
)
    requires
        index < positions.len(),
        positions[index as int].0 == stderr,
        offset <= positions[index as int].1,
    ensures
        cursor_spec(next_cursor_spec(generation, index, stderr, offset), generation, positions)
            == Ok::<(usize, usize), Seq<char>>((index, offset)),
{
    reveal_strlit("|");
    reveal_strlit("1");
    reveal_strlit("0");
    assert(digits_value(Seq::<char>::empty()) == 0);
    let a = decimal(generation as nat);
    let b = decimal(index as nat);
    let c = if stderr {
        "1"@
    } else {
        "0"@
    };
    let d = decimal(offset as nat);
    lemma_decimal_reads_back(generation as nat);
    lemma_decimal_reads_back(index as nat);
    lemma_decimal_reads_back(offset as nat);
    assert(c.len() == 1 && is_digit(c[0]));
    assert(c.drop_last() =~= Seq::<char>::empty());
    assert(digits_value(c) == (if stderr { 1nat } else { 0nat }));
    let sep = seq!['|'];
    assert("|"@ =~= sep);
    let text = next_cursor_spec(generation, index, stderr, offset);
    let k1 = a.len() as int;
    let k2 = k1 + 1 + b.len();
    let k3 = k2 + 1 + c.len();
    assert(text =~= a + sep + b + sep + c + sep + d);
    assert(text[k1] == '|' && text[k2] == '|' && text[k3] == '|');
    assert forall|m: int| 0 <= m < k1 implies text[m] != '|' by {
        assert(text[m] == a[m]);
        assert(is_digit(a[m]));
    }
    assert forall|m: int| k1 + 1 <= m < k2 implies text[m] != '|' by {
        assert(text[m] == b[m - k1 - 1]);
        assert(is_digit(b[m - k1 - 1]));
    }
    assert forall|m: int| k2 + 1 <= m < k3 implies text[m] != '|' by {
        assert(text[m] == c[m - k2 - 1]);
    }
    assert forall|m: int| k3 + 1 <= m < text.len() implies text[m] != '|' by {
        assert(text[m] == d[m - k3 - 1]);
        assert(is_digit(d[m - k3 - 1]));
    }
    lemma_split_step(text, 0, k1);
    lemma_split_step(text, k1 + 1, k2);
    lemma_split_step(text, k2 + 1, k3);
    lemma_split_end(text, k3 + 1);
    assert(text.subrange(0, k1) =~= a);
    assert(text.subrange(k1 + 1, k2) =~= b);
    assert(text.subrange(k2 + 1, k3) =~= c);
    assert(text.subrange(k3 + 1, text.len() as int) =~= d);
    let parts = split(text, "|"@);
    assert(parts =~= seq![a, b, c, d]);
    assert(unsigned_digits(a) == a);
    assert(unsigned_digits(b) == b);
    assert(unsigned_digits(c) == c);
    assert(unsigned_digits(d) == d);
}

pub fn next_cursor(generation: u64, index: usize, stderr: bool, offset: usize) -> (r: String)
    ensures
        r@ == next_cursor_spec(generation, index, stderr, offset),
{
    let mut m = decimal_string(generation);
    m.append("|");
    m.append(decimal_string(index as u64).as_str());
    m.append("|");
    m.append(if stderr {
        "1"
    } else {
        "0"
    });
    m.append("|");
    m.append(decimal_string(offset as u64).as_str());
    m
}

/// Where a page walk stands. The walk takes plan positions in order from
/// the cursor; the caller measures the serialized page (the budget bounds
/// the serialized document, not the content) and reports what it found.
#[derive(Clone, Debug, PartialEq, Eq)]
pub enum WalkPhase {
    /// Next: inspect plan position `index`, from byte `begin` of its stream.
    Scanning { index: usize, begin: usize },
    /// The stream at `index` does not fit whole: search the largest prefix
    /// (in whole characters; `boundaries` holds the byte offset of each
    /// character and the text's length) that fits. `lo_fits` tells whether
    /// the candidate `lo` was measured to fit (none was at the start); `hi`
    /// bounds the candidates.
    Searching {
        index: usize,
        begin: usize,
        stream_len: usize,
        boundaries: Vec<usize>,
        lo: usize,
        hi: usize,
        lo_fits: bool,
    },
    /// The page is complete; `next` is where the following page resumes.
    Done { next: Option<(usize, usize)> },
}

/// A page walk: the plan length, the walk's phase and the content bytes
/// returned so far.
#[derive(Clone, Debug, PartialEq, Eq)]
pub struct PageWalk {
    pub plan_len: usize,
    pub phase: WalkPhase,
    pub returned: usize,
}

/// What the caller found at a plan position.
#[derive(Clone, Debug, PartialEq, Eq)]
pub enum WalkEvent {
    /// The stream at the position retains `stream_len` bytes; from `begin`
    /// its text is `text_len` bytes long, whose character boundaries are
    /// `boundaries` (ending with `text_len`); `fits_whole` tells whether
    /// the page with the whole text stays within the budget.
    Inspected { stream_len: usize, text_len: usize, boundaries: Vec<usize>, fits_whole: bool },
    /// Whether the page with the prefix last asked for stays within the
    /// budget.
    Measured { fits: bool },
}

/// What the caller does next.
#[derive(Clone, Debug, PartialEq, Eq)]
pub enum WalkAction {
    /// Inspect this plan position from byte `begin`.
    Inspect { index: usize, begin: usize },
    /// Add the whole text of the position just inspected to the page.
    IncludeWhole,
    /// Measure the page with the first `keep` bytes of the text.
    Measure { keep: usize },
    /// Add the first `keep` bytes of the text (none when `keep` is 0) and
    /// close the page with this continuation.
    Close { keep: usize, next: Option<(usize, usize)> },
    /// The page is complete.
    Finished,
}

/// The step of a walk on what the caller reported.
pub open spec fn walk_step_spec(w: PageWalkView, e: WalkEvent) -> (PageWalkView, WalkAction) {
    match w.phase {
        WalkPhaseView::Scanning { index, begin } => if index >= w.plan_len {
            (PageWalkView { phase: WalkPhaseView::Done { next: None }, ..w }, WalkAction::Finished)
        } else {
            match e {
                WalkEvent::Inspected { stream_len, text_len, boundaries, fits_whole } => if begin
                    >= stream_len {
                    if index + 1 >= w.plan_len {
                        (PageWalkView { phase: WalkPhaseView::Done { next: None }, ..w }, WalkAction::Finished)
                    } else {
                        (
                            PageWalkView { phase: WalkPhaseView::Scanning { index: (index + 1) as usize, begin: 0 }, ..w },
                            WalkAction::Inspect { index: (index + 1) as usize, begin: 0 },
                        )
                    }
                } else if fits_whole || text_len == 0 {
                    (
                        PageWalkView {
                            phase: WalkPhaseView::Scanning { index: (index + 1) as usize, begin: 0 },
                            returned: w.returned + text_len,
                            ..w
                        },
                        WalkAction::IncludeWhole,
                    )
                } else {
                    search_next(PageWalkView {
                        phase: WalkPhaseView::Searching {
                            index,
                            begin,
                            stream_len,
                            boundaries: boundaries@,
                            lo: 0,
                            hi: boundaries@.len() as usize,
                            lo_fits: false,
                        },
                        ..w
                    })
                },
                _ => (w, WalkAction::Inspect { index, begin }),
            }
        },
        WalkPhaseView::Searching { index, begin, stream_len, boundaries, lo, hi, lo_fits } => match e {
            WalkEvent::Measured { fits } => {
                let mid = ((lo + hi + 1) / 2) as usize;
                search_next(PageWalkView {
                    phase: WalkPhaseView::Searching {
                        index,
                        begin,
                        stream_len,
                        boundaries,
                        lo: if fits {
                            mid
                        } else {
                            lo
                        },
                        hi: if fits {
                            hi
                        } else {
                            (mid - 1) as usize
                        },
                        lo_fits: fits || lo_fits,
                    },
                    ..w
                })
            },
            _ => (w, WalkAction::Measure { keep: boundaries[((lo + hi + 1) / 2) as int] }),
        },
        WalkPhaseView::Done { .. } => (w, WalkAction::Finished),
    }
}

/// The search's next move: measure the upper middle candidate (a candidate
/// past the last boundary is taken as not fitting), or close the page with
/// the largest fitting prefix once the bounds meet.
pub open spec fn search_next(w: PageWalkView) -> (PageWalkView, WalkAction)
    decreases (match w.phase {
        WalkPhaseView::Searching { lo, hi, .. } => hi - lo,
        _ => 0,
    }),
{
    match w.phase {
        WalkPhaseView::Searching { index, begin, stream_len, boundaries, lo, hi, lo_fits } => if lo >= hi {
            let keep = if lo_fits && lo < boundaries.len() {
                boundaries[lo as int]
            } else {
                0
            };
            let next = if keep > 0 || begin + keep < stream_len {
                Some((index, (begin + keep) as usize))
            } else {
                None
            };
            (
                PageWalkView {
                    phase: WalkPhaseView::Done { next },
                    returned: if keep > 0 {
                        w.returned + keep
                    } else {
                        w.returned
                    },
                    ..w
                },
                WalkAction::Close { keep, next },
            )
        } else {
            let mid = (lo + hi + 1) / 2;
            if mid < boundaries.len() {
                (w, WalkAction::Measure { keep: boundaries[mid] })
            } else {
                search_next(
                    PageWalkView {
                        phase: WalkPhaseView::Searching {
                            index,
                            begin,
                            stream_len,
                            boundaries,
                            lo,
                            hi: (mid - 1) as usize,
                            lo_fits,
                        },
                        ..w
                    },
                )
            }
        },
        _ => (w, WalkAction::Finished),
    }
}

pub enum WalkPhaseView {
    Scanning { index: usize, begin: usize },
    Searching {
        index: usize,
        begin: usize,
        stream_len: usize,
        boundaries: Seq<usize>,
        lo: usize,
        hi: usize,
        lo_fits: bool,
    },
    Done { next: Option<(usize, usize)> },
}

pub struct PageWalkView {
    pub plan_len: usize,
    pub phase: WalkPhaseView,
    pub returned: int,
}

impl View for PageWalk {
    type V = PageWalkView;

    open spec fn view(&self) -> PageWalkView {
        PageWalkView {
            plan_len: self.plan_len,
            phase: match self.phase {
                WalkPhase::Scanning { index, begin } => WalkPhaseView::Scanning { index, begin },
                WalkPhase::Searching { index, begin, stream_len, boundaries, lo, hi, lo_fits } => WalkPhaseView::Searching {
                    index,
                    begin,
                    stream_len,
                    boundaries: boundaries@,
                    lo,
                    hi,
                    lo_fits,
                },
                WalkPhase::Done { next } => WalkPhaseView::Done { next },
            },
            returned: self.returned as int,
        }
    }
}

/// The walk searching a prefix with these bounds.
pub open spec fn searching(
    w: PageWalkView,
    index: usize,
    begin: usize,
    stream_len: usize,
    boundaries: Seq<usize>,
    lo: usize,
    hi: usize,
    lo_fits: bool,
) -> PageWalkView {
    PageWalkView {
        phase: WalkPhaseView::Searching { index, begin, stream_len, boundaries, lo, hi, lo_fits },
        ..w
    }
}

/// A page holds only text the caller confirmed to fit its budget. A stream
/// is added whole only when the page with all of it fits (or it is empty).
/// A search starts with no confirmed candidate; a measurement moves the
/// kept candidate only to the prefix just measured, and only when it fit;
/// and the search closes with that confirmed prefix, or with none.
pub proof fn law_page_holds_only_confirmed_text(w: PageWalkView, e: WalkEvent)
    ensures
        walk_step_spec(w, e).1 == WalkAction::IncludeWhole ==> (e matches WalkEvent::Inspected {
            fits_whole,
            text_len,
            ..
        } && (fits_whole || text_len == 0)),
        (w.phase is Scanning && w.phase->Scanning_index < w.plan_len && e is Inspected
            && w.phase->Scanning_begin < e->stream_len && !e->fits_whole && e->text_len > 0)
            ==> walk_step_spec(w, e) == search_next(
            searching(
                w,
                w.phase->Scanning_index,
                w.phase->Scanning_begin,
                e->stream_len,
                e->boundaries@,
                0,
                e->boundaries@.len() as usize,
                false,
            ),
        ),
        (w.phase is Searching && e is Measured) ==> walk_step_spec(w, e) == search_next(
            searching(
                w,
                w.phase->Searching_index,
                w.phase->Searching_begin,
                w.phase->Searching_stream_len,
                w.phase->Searching_boundaries,
                if e->fits {
                    ((w.phase->Searching_lo + w.phase->Searching_hi + 1) / 2) as usize
                } else {
                    w.phase->Searching_lo
                },
                if e->fits {
                    w.phase->Searching_hi
                } else {
                    (((w.phase->Searching_lo + w.phase->Searching_hi + 1) / 2) - 1) as usize
                },
                e->fits || w.phase->Searching_lo_fits,
            ),
        ),
{
    match w.phase {
        WalkPhaseView::Scanning { index, begin } => match e {
            WalkEvent::Inspected { stream_len, text_len, boundaries, fits_whole } => {
                lemma_search_never_includes_whole(
                    searching(w, index, begin, stream_len, boundaries@, 0, boundaries@.len() as usize, false),
                );
            },
            _ => {},
        },
        WalkPhaseView::Searching { index, begin, stream_len, boundaries, lo, hi, lo_fits } => match e {
            WalkEvent::Measured { fits } => {
                let mid = ((lo + hi + 1) / 2) as usize;
                lemma_search_never_includes_whole(
                    searching(
                        w,
                        index,
                        begin,
                        stream_len,
                        boundaries,
                        if fits { mid } else { lo },
                        if fits { hi } else { (mid - 1) as usize },
                        fits || lo_fits,
                    ),
                );
            },
            _ => {},
        },
        _ => {},
    }
}

proof fn lemma_search_never_includes_whole(w: PageWalkView)
    ensures
        search_next(w).1 != WalkAction::IncludeWhole,
    decreases (match w.phase {
        WalkPhaseView::Searching { lo, hi, .. } => hi - lo,
        _ => 0,
    }),
{
    match w.phase {
        WalkPhaseView::Searching { index, begin, stream_len, boundaries, lo, hi, lo_fits } => {
            if lo < hi {
                let mid = (lo + hi + 1) / 2;
                if mid >= boundaries.len() {
                    lemma_search_never_includes_whole(
                        searching(w, index, begin, stream_len, boundaries, lo, (mid - 1) as usize, lo_fits),
                    );
                }
            }
        },
        _ => {},
    }
}

/// The search closes with the confirmed candidate: a non-empty kept prefix
/// is always the candidate a measurement found to fit.
pub proof fn law_search_closes_with_confirmed_prefix(w: PageWalkView)
    requires
        w.phase is Searching,
    ensures
        search_next(w).1 matches WalkAction::Close { keep, .. } ==> keep == 0 || (
        w.phase->Searching_lo_fits && w.phase->Searching_lo < w.phase->Searching_boundaries.len()
            && keep == w.phase->Searching_boundaries[w.phase->Searching_lo as int]),
    decreases (w.phase->Searching_hi - w.phase->Searching_lo),
{
    match w.phase {
        WalkPhaseView::Searching { index, begin, stream_len, boundaries, lo, hi, lo_fits } => {
            if lo < hi {
                let mid = (lo + hi + 1) / 2;
                if mid >= boundaries.len() {
                    law_search_closes_with_confirmed_prefix(
                        searching(w, index, begin, stream_len, boundaries, lo, (mid - 1) as usize, lo_fits),
                    );
                }
            }
        },
        _ => {},
    }
}

/// The walk's arithmetic stays within `usize`: every candidate prefix,
/// added to the bytes returned and to the position's start, fits.
pub open spec fn walk_bounded(w: PageWalkView) -> bool {
    match w.phase {
        WalkPhaseView::Searching { begin, boundaries, lo, hi, .. } => {
            &&& lo < hi
            &&& (lo + hi + 1) / 2 < boundaries.len()
            &&& forall|k: int|
                0 <= k < boundaries.len() ==> w.returned + begin + #[trigger] boundaries[k] <= usize::MAX
        },
        _ => w.returned <= usize::MAX,
    }
}

/// What an inspection may report: character boundaries within the text, and
/// a text that, added to the bytes returned and the start, fits `usize`.
pub open spec fn inspection_bounded(w: PageWalkView, e: WalkEvent) -> bool {
    match (w.phase, e) {
        (WalkPhaseView::Scanning { begin, .. }, WalkEvent::Inspected { text_len, boundaries, .. }) => {
            &&& w.returned + begin + text_len <= usize::MAX
            &&& forall|k: int| 0 <= k < boundaries@.len() ==> #[trigger] boundaries@[k] <= text_len
        },
        _ => true,
    }
}

/// The first action of a walk that has not started: inspect its first
/// position, or finish when the plan is exhausted.
pub open spec fn first_action_spec(w: PageWalkView) -> Option<WalkAction> {
    match w.phase {
        WalkPhaseView::Scanning { index, begin } => Some(
            if index >= w.plan_len {
                WalkAction::Finished
            } else {
                WalkAction::Inspect { index, begin }
            },
        ),
        _ => None,
    }
}

impl PageWalk {
    /// A walk from the cursor's position and byte offset (the start of the
    /// plan without a cursor).
    pub fn new(plan_len: usize, start: (usize, usize)) -> (r: Self)
        ensures
            r@.plan_len == plan_len,
            r@.phase == (WalkPhaseView::Scanning { index: start.0, begin: start.1 }),
            r@.returned == 0,
            walk_bounded(r@),
    {
        PageWalk { plan_len, phase: WalkPhase::Scanning { index: start.0, begin: start.1 }, returned: 0 }
    }

    /// The first action of the walk.
    pub fn first_action(&self) -> (r: WalkAction)
        ensures
            first_action_spec(self@) matches Some(a) ==> r == a,
    {
        match &self.phase {
            WalkPhase::Scanning { index, begin } => if *index >= self.plan_len {
                WalkAction::Finished
            } else {
                WalkAction::Inspect { index: *index, begin: *begin }
            },
            _ => WalkAction::Finished,
        }
    }

    fn search(
        &mut self,
        index: usize,
        begin: usize,
        stream_len: usize,
        boundaries: Vec<usize>,
        lo: usize,
        hi: usize,
        lo_fits: bool,
    ) -> (r: WalkAction)
        requires
            forall|k: int|
                0 <= k < boundaries@.len() ==> old(self)@.returned + begin + #[trigger] boundaries@[k]
                    <= usize::MAX,
            old(self)@.returned <= usize::MAX,
        ensures
            (final(self)@, r) == search_next(
                searching(old(self)@, index, begin, stream_len, boundaries@, lo, hi, lo_fits),
            ),
            walk_bounded(final(self)@),
        decreases hi - lo,
    {
        if lo >= hi {
            let keep = if lo_fits && lo < boundaries.len() {
                boundaries[lo]
            } else {
                0
            };
            let next = if keep > 0 || begin + keep < stream_len {
                Some((index, begin + keep))
            } else {
                None
            };
            if keep > 0 {
                self.returned = self.returned + keep;
            }
            self.phase = WalkPhase::Done { next };
            return WalkAction::Close { keep, next };
        }
        let d = hi - lo;
        let mid = lo + (d / 2 + d % 2);
        assert(mid == (lo + hi + 1) / 2);
        if mid < boundaries.len() {
            let keep = boundaries[mid];
            self.phase = WalkPhase::Searching { index, begin, stream_len, boundaries, lo, hi, lo_fits };
            WalkAction::Measure { keep }
        } else {
            self.search(index, begin, stream_len, boundaries, lo, mid - 1, lo_fits)
        }
    }

    /// Advances the walk on what the caller reported.
    pub fn step(&mut self, e: WalkEvent) -> (r: WalkAction)
        requires
            walk_bounded(old(self)@),
            inspection_bounded(old(self)@, e),
        ensures
            (final(self)@, r) == walk_step_spec(old(self)@, e),
            walk_bounded(final(self)@),
    {
        let mut phase = WalkPhase::Done { next: None };
        std::mem::swap(&mut phase, &mut self.phase);
        match phase {
            WalkPhase::Scanning { index, begin } => {
                if index >= self.plan_len {
                    self.phase = WalkPhase::Done { next: None };
                    return WalkAction::Finished;
                }
                match e {
                    WalkEvent::Inspected { stream_len, text_len, boundaries, fits_whole } => {
                        if begin >= stream_len {
                            if index + 1 >= self.plan_len {
                                self.phase = WalkPhase::Done { next: None };
                                return WalkAction::Finished;
                            }
                            self.phase = WalkPhase::Scanning { index: index + 1, begin: 0 };
                            WalkAction::Inspect { index: index + 1, begin: 0 }
                        } else if fits_whole || text_len == 0 {
                            self.returned = self.returned + text_len;
                            self.phase = WalkPhase::Scanning { index: index + 1, begin: 0 };
                            WalkAction::IncludeWhole
                        } else {
                            let n = boundaries.len();
                            self.search(index, begin, stream_len, boundaries, 0, n, false)
                        }
                    },
                    WalkEvent::Measured { .. } => {
                        self.phase = WalkPhase::Scanning { index, begin };
                        WalkAction::Inspect { index, begin }
                    },
                }
            },
            WalkPhase::Searching { index, begin, stream_len, boundaries, lo, hi, lo_fits } => {
                match e {
                    WalkEvent::Measured { fits } => {
                        let d = hi - lo;
                        let mid = lo + (d / 2 + d % 2);
                        assert(mid == (lo + hi + 1) / 2);
                        if fits {
                            self.search(index, begin, stream_len, boundaries, mid, hi, true)
                        } else {
                            self.search(index, begin, stream_len, boundaries, lo, mid - 1, lo_fits)
                        }
                    },
                    WalkEvent::Inspected { .. } => {
                        let d = hi - lo;
                        let keep = boundaries[lo + (d / 2 + d % 2)];
                        self.phase = WalkPhase::Searching { index, begin, stream_len, boundaries, lo, hi, lo_fits };
                        WalkAction::Measure { keep }
                    },
                }
            },
            WalkPhase::Done { next } => {
                self.phase = WalkPhase::Done { next };
                WalkAction::Finished
            },
        }
    }
}

/// Default tail, in lines per stream, of the retrieval a failure points to.
pub const EVIDENCE_TAIL: u64 = 80;

/// Default serialized page budget in bytes.
pub const DEFAULT_PAGE_BYTES: u64 = 24576;

/// A task id as one shell-safe single-quoted word: each `'` inside becomes
/// `'\''`, so tags, spaces and quotes never break the command.
pub open spec fn shell_quote_spec(task: Seq<char>) -> Seq<char> {
    "'"@ + crate::text::replace_all(task, "'"@, "'\\''"@) + "'"@
}

pub fn shell_quote(task: &str) -> (r: String)
    ensures
        r@ == shell_quote_spec(task@),
{
    proof {
        reveal_strlit("'");
    }
    let inner = crate::text::replace_exec(&to_chars(task), &to_chars("'"), &to_chars("'\\''"));
    let mut s = owned("'");
    s.append(from_chars(&inner).as_str());
    s.append("'");
    s
}

/// The human retrieval command for a failed task's output.
pub open spec fn legacy_retrieve_spec(generation: u64, task: Seq<char>) -> Seq<char> {
    "fzz control output --generation "@ + decimal(generation as nat) + " --task "@
        + shell_quote_spec(task) + " --tail 80"@
}

pub fn legacy_retrieve_command(generation: u64, task: &str) -> (r: String)
    ensures
        r@ == legacy_retrieve_spec(generation, task@),
{
    let mut s = owned("fzz control output --generation ");
    s.append(decimal_string(generation).as_str());
    s.append(" --task ");
    s.append(shell_quote(task).as_str());
    s.append(" --tail 80");
    s
}

/// A structured, copy-safe reference to a failed task's output: the
/// instance, generation and exact task identity, safe retrieval defaults,
/// and a shell-safe command built from the same identities.
#[derive(Clone, Debug, PartialEq, Eq)]
pub struct OutputRef {
    pub instance_token: String,
    pub generation: u64,
    pub task: String,
    pub mode: String,
    pub tail: u64,
    pub max_bytes: u64,
    pub retrieve: String,
}

pub open spec fn ref_command_spec(instance: Seq<char>, generation: u64, task: Seq<char>) -> Seq<char> {
    "fzz control output --instance "@ + shell_quote_spec(instance) + " --generation "@ + decimal(
        generation as nat,
    ) + " --task "@ + shell_quote_spec(task) + " --tail 80"@
}

pub fn output_ref(instance_token: &str, generation: u64, task: &str) -> (r: OutputRef)
    ensures
        r.instance_token@ == instance_token@,
        r.generation == generation,
        r.task@ == task@,
        r.mode@ == "tail"@,
        r.tail == EVIDENCE_TAIL,
        r.max_bytes == DEFAULT_PAGE_BYTES,
        r.retrieve@ == ref_command_spec(instance_token@, generation, task@),
{
    let mut cmd = owned("fzz control output --instance ");
    cmd.append(shell_quote(instance_token).as_str());
    cmd.append(" --generation ");
    cmd.append(decimal_string(generation).as_str());
    cmd.append(" --task ");
    cmd.append(shell_quote(task).as_str());
    cmd.append(" --tail 80");
    OutputRef {
        instance_token: owned(instance_token),
        generation,
        task: owned(task),
        mode: owned("tail"),
        tail: EVIDENCE_TAIL,
        max_bytes: DEFAULT_PAGE_BYTES,
        retrieve: cmd,
    }
}

/// The task failure evidence names: the first retained task that failed,
/// else the first retained task; none when nothing is retained.
pub open spec fn primary_spec(retained: Seq<Seq<char>>, failed: Seq<Seq<char>>) -> Option<Seq<char>> {
    let hits = retained.filter(|id: Seq<char>| failed.contains(id));
    if hits.len() > 0 {
        Some(hits[0])
    } else if retained.len() > 0 {
        Some(retained[0])
    } else {
        None
    }
}

fn contains_string(v: &Vec<String>, x: &String) -> (r: bool)
    ensures
        r == views(v@).contains(x@),
{
    let xc = to_chars(x.as_str());
    let mut i: usize = 0;
    while i < v.len()
        invariant
            i <= v@.len(),
            xc@ == x@,
            forall|k: int| 0 <= k < i ==> v@[k]@ != x@,
        decreases v@.len() - i,
    {
        if crate::text::chars_eq(&to_chars(v[i].as_str()), &xc) {
            assert(views(v@)[i as int] == x@);
            return true;
        }
        i = i + 1;
    }
    false
}

pub fn primary_task(retained: &Vec<String>, failed: &Vec<String>) -> (r: Option<String>)
    ensures
        match r {
            Some(p) => primary_spec(views(retained@), views(failed@)) == Some(p@),
            None => primary_spec(views(retained@), views(failed@)) is None,
        },
{
    let ghost rs = views(retained@);
    let ghost fs = views(failed@);
    let ghost f = |id: Seq<char>| fs.contains(id);
    let mut i: usize = 0;
    while i < retained.len()
        invariant
            i <= retained@.len(),
            rs == views(retained@),
            fs == views(failed@),
            f == (|id: Seq<char>| fs.contains(id)),
            rs.take(i as int).filter(f).len() == 0,
        decreases retained@.len() - i,
    {
        proof {
            assert(rs.take(i + 1).drop_last() =~= rs.take(i as int));
            reveal(Seq::filter);
        }
        if contains_string(failed, &retained[i]) {
            proof {
                assert(rs.take(i + 1).filter(f) =~= seq![rs[i as int]]);
                lemma_filter_prefix_first(rs, f, i as int + 1);
            }
            return Some(retained[i].clone());
        }
        i = i + 1;
    }
    assert(rs.take(rs.len() as int) =~= rs);
    if retained.len() > 0 {
        Some(retained[0].clone())
    } else {
        None
    }
}

/// A filter's first element is that of any prefix whose filter is not
/// empty.
proof fn lemma_filter_prefix_first(s: Seq<Seq<char>>, f: spec_fn(Seq<char>) -> bool, n: int)
    requires
        0 < n <= s.len(),
        s.take(n).filter(f).len() > 0,
    ensures
        s.filter(f).len() > 0,
        s.filter(f)[0] == s.take(n).filter(f)[0],
    decreases s.len() - n,
{
    if n < s.len() {
        reveal(Seq::filter);
        assert(s.take(n + 1).drop_last() =~= s.take(n));
        assert(s.take(n + 1).filter(f).len() > 0);
        assert(s.take(n + 1).filter(f)[0] == s.take(n).filter(f)[0]);
        lemma_filter_prefix_first(s, f, n + 1);
    } else {
        assert(s.take(n) =~= s);
    }
}

/// Default tail, in lines per stream, when a retrieval names none.
pub const DEFAULT_RETRIEVAL_TAIL: usize = 40;

/// The index of the first newline of `s` at or after `i`, or `s.len()`.
pub open spec fn newline_from(s: Seq<char>, i: int) -> int
    decreases s.len() - i,
{
    if i >= s.len() || i < 0 {
        s.len() as int
    } else if s[i] == '\n' {
        i
    } else {
        newline_from(s, i + 1)
    }
}

/// The lines of `s[i..]`, each with its newline (as `str::split_inclusive`
/// on `'\n'`); a last line without one is kept as it is.
pub open spec fn lines_from(s: Seq<char>, i: int) -> Seq<Seq<char>>
    decreases s.len() - i,
{
    if i >= s.len() || i < 0 {
        Seq::empty()
    } else {
        let k = newline_from(s, i);
        proof {
            lemma_newline_from_bounds(s, i);
        }
        if k >= s.len() {
            seq![s.subrange(i, s.len() as int)]
        } else {
            seq![s.subrange(i, k + 1)] + lines_from(s, k + 1)
        }
    }
}

pub proof fn lemma_newline_from_bounds(s: Seq<char>, i: int)
    requires
        0 <= i,
    ensures
        i <= newline_from(s, i) || i > s.len(),
        newline_from(s, i) <= s.len(),
        newline_from(s, i) < s.len() ==> s[newline_from(s, i)] == '\n',
        forall|j: int| i <= j < newline_from(s, i) ==> s[j] != '\n',
    decreases s.len() - i,
{
    if i < s.len() && s[i] != '\n' {
        lemma_newline_from_bounds(s, i + 1);
    }
}

/// The text of the last `n` lines of `s`.
pub open spec fn tail_spec(s: Seq<char>, n: int) -> Seq<char> {
    let lines = lines_from(s, 0);
    let from = if lines.len() > n {
        lines.len() - n
    } else {
        0
    };
    crate::rules::concat_all(lines.skip(from))
}

fn lines_of(s: &Vec<char>) -> (r: Vec<Vec<char>>)
    ensures
        r@.len() == lines_from(s@, 0).len(),
        forall|k: int| 0 <= k < r@.len() ==> #[trigger] r@[k]@ == lines_from(s@, 0)[k],
{
    let mut out: Vec<Vec<char>> = Vec::new();
    let ghost mut acc: Seq<Seq<char>> = Seq::empty();
    let mut start: usize = 0;
    while start < s.len()
        invariant
            start <= s@.len(),
            out@.len() == acc.len(),
            forall|k: int| 0 <= k < out@.len() ==> #[trigger] out@[k]@ == acc[k],
            acc + lines_from(s@, start as int) == lines_from(s@, 0),
        decreases s@.len() - start,
    {
        let mut j: usize = start;
        while j < s.len() && s[j] != '\n'
            invariant
                start <= j <= s@.len(),
                newline_from(s@, start as int) == newline_from(s@, j as int),
            decreases s@.len() - j,
        {
            j = j + 1;
        }
        proof {
            lemma_newline_from_bounds(s@, start as int);
        }
        let end = if j < s.len() {
            j + 1
        } else {
            j
        };
        let piece = crate::text::slice_chars(s, start, end);
        proof {
            let rest = lines_from(s@, end as int);
            assert(lines_from(s@, start as int) == seq![s@.subrange(start as int, end as int)] + rest);
            assert(acc.push(piece@) + rest =~= acc + lines_from(s@, start as int));
            acc = acc.push(piece@);
        }
        out.push(piece);
        start = end;
    }
    assert(acc + lines_from(s@, start as int) =~= acc);
    out
}

/// The content a retrieval returns for one stream: everything retained
/// when `full`, else the last `tail` lines (40 when none is named).
pub open spec fn content_spec(text: Seq<char>, tail: Option<usize>, full: bool) -> Seq<char> {
    if full {
        text
    } else {
        tail_spec(
            text,
            match tail {
                Some(n) => n as int,
                None => DEFAULT_RETRIEVAL_TAIL as int,
            },
        )
    }
}

pub fn stream_content(text: &str, tail: Option<usize>, full: bool) -> (r: String)
    ensures
        r@ == content_spec(text@, tail, full),
{
    if full {
        return owned(text);
    }
    let n = match tail {
        Some(n) => n,
        None => DEFAULT_RETRIEVAL_TAIL,
    };
    let chars = to_chars(text);
    let lines = lines_of(&chars);
    let ghost ls = lines_from(text@, 0);
    let from = if lines.len() > n {
        lines.len() - n
    } else {
        0
    };
    let mut out: Vec<char> = Vec::new();
    let mut k: usize = from;
    while k < lines.len()
        invariant
            from <= k <= lines@.len(),
            lines@.len() == ls.len(),
            forall|m: int| 0 <= m < lines@.len() ==> #[trigger] lines@[m]@ == ls[m],
            out@ == crate::rules::concat_all(ls.skip(from as int).take(k - from)),
        decreases lines@.len() - k,
    {
        let ghost before = out@;
        crate::text::extend_chars(&mut out, &lines[k]);
        proof {
            let t = ls.skip(from as int);
            assert(t.take(k + 1 - from) =~= t.take(k - from).push(ls[k as int]));
            crate::rules::lemma_concat_all_push(t.take(k - from), ls[k as int]);
        }
        k = k + 1;
    }
    proof {
        let t = ls.skip(from as int);
        assert(t.take(t.len() as int) =~= t);
    }
    from_chars(&out)
}

/// Whether a stream is returned for a stream filter: both without one,
/// only the named one with `stdout` or `stderr`, neither with another name.
pub open spec fn stream_requested_spec(stream: Option<Seq<char>>, is_stderr: bool) -> bool {
    match stream {
        None => true,
        Some(w) => if w == "stdout"@ {
            !is_stderr
        } else if w == "stderr"@ {
            is_stderr
        } else {
            false
        },
    }
}

/// A named stream filter selects exactly the stream it names: "stdout"
/// only standard output and "stderr" only standard error; without a filter
/// both streams are returned; a named filter never selects both streams of
/// a task, and a name other than these two selects neither.
pub proof fn law_stream_filter_selects_named_stream(w: Seq<char>, is_stderr: bool)
    ensures
        stream_requested_spec(None, is_stderr),
        stream_requested_spec(Some("stdout"@), is_stderr) <==> !is_stderr,
        stream_requested_spec(Some("stderr"@), is_stderr) <==> is_stderr,
        !(stream_requested_spec(Some(w), false) && stream_requested_spec(Some(w), true)),
        w != "stdout"@ && w != "stderr"@ ==> !stream_requested_spec(Some(w), is_stderr),
{
    reveal_strlit("stdout");
    reveal_strlit("stderr");
    assert("stdout"@[3] != "stderr"@[3]);
}

pub fn stream_requested(stream: Option<&str>, is_stderr: bool) -> (r: bool)
    ensures
        r == stream_requested_spec(
            match stream {
                Some(w) => Some(w@),
                None => None,
            },
            is_stderr,
        ),
{
    match stream {
        None => true,
        Some(w) => {
            let c = to_chars(w);
            if crate::text::chars_eq(&c, &to_chars("stdout")) {
                !is_stderr
            } else if crate::text::chars_eq(&c, &to_chars("stderr")) {
                is_stderr
            } else {
                false
            }
        },
    }
}

/// `String::from_utf8_lossy`: the bytes as text, each invalid sequence
/// replaced by U+FFFD.
pub uninterp spec fn utf8_lossy(bytes: Seq<u8>) -> Seq<char>;

/// `String::from_utf8_lossy(bytes).into_owned()`.
#[verifier::external_body]
fn lossy_text(bytes: &[u8]) -> (r: String)
    ensures
        r@ == utf8_lossy(bytes@),
{
    String::from_utf8_lossy(bytes).into_owned()
}

/// One stream's retrieved content and the bounds of the whole captured
/// stream: its line count, retained and observed bytes, and whether the
/// capture dropped bytes.
#[derive(Clone, Debug, PartialEq, Eq)]
pub struct StreamOutput {
    pub content: String,
    pub lines: u64,
    pub retained_bytes: u64,
    pub observed_bytes: u64,
    pub truncated: bool,
}

/// A captured stream: the retained bytes and the capture's bounds.
#[derive(Clone, Debug, PartialEq, Eq)]
pub struct CapturedStream {
    pub bytes: Vec<u8>,
    pub observed_bytes: u64,
    pub truncated: bool,
}

/// Renders one captured stream for a retrieval: nothing when the stream
/// filter excludes it; else its content (the tail or everything) with the
/// line count of the whole retained text and the capture's bounds.
pub fn render_stream(
    captured: &CapturedStream,
    stream: Option<&str>,
    tail: Option<usize>,
    full: bool,
    is_stderr: bool,
) -> (r: Option<StreamOutput>)
    ensures
        r is Some <==> stream_requested_spec(
            match stream {
                Some(w) => Some(w@),
                None => None,
            },
            is_stderr,
        ),
        r matches Some(o) ==> {
            &&& o.content@ == content_spec(utf8_lossy(captured.bytes@), tail, full)
            &&& o.lines == lines_from(utf8_lossy(captured.bytes@), 0).len()
            &&& o.retained_bytes == captured.bytes@.len()
            &&& o.observed_bytes == captured.observed_bytes
            &&& o.truncated == captured.truncated
        },
{
    if !stream_requested(stream, is_stderr) {
        return None;
    }
    let text = lossy_text(captured.bytes.as_slice());
    let content = stream_content(text.as_str(), tail, full);
    let lines = lines_of(&to_chars(text.as_str()));
    proof {
        assert(lines@.len() <= text@.len()) by {
            lemma_lines_count(text@, 0);
        }
    }
    Some(StreamOutput {
        content,
        lines: lines.len() as u64,
        retained_bytes: captured.bytes.len() as u64,
        observed_bytes: captured.observed_bytes,
        truncated: captured.truncated,
    })
}

/// No more lines than characters.
proof fn lemma_lines_count(s: Seq<char>, i: int)
    requires
        0 <= i,
    ensures
        lines_from(s, i).len() <= if i < s.len() {
            s.len() - i
        } else {
            0
        },
    decreases s.len() - i,
{
    if i < s.len() {
        lemma_newline_from_bounds(s, i);
        let k = newline_from(s, i);
        if k < s.len() {
            lemma_lines_count(s, k + 1);
        }
    }
}

/// Global retained-output budget in bytes: even a full retrieval never
/// exceeds it.
pub const OUTPUT_RETENTION_BYTES: usize = 1048576;

/// Maximum retained generations, whatever their size.
pub const OUTPUT_MAX_GENERATIONS: usize = 128;

/// One retained task's captured streams.
#[derive(Clone, Debug, PartialEq, Eq)]
pub struct RetainedTask {
    pub task: String,
    pub stdout: CapturedStream,
    pub stderr: CapturedStream,
}

/// The retained output of recent generations, oldest first.
#[derive(Clone, Debug, PartialEq, Eq)]
pub struct OutputLedger {
    pub generations: Vec<(u64, Vec<RetainedTask>)>,
}

pub open spec fn task_bytes(t: RetainedTask) -> nat {
    t.stdout.bytes@.len() + t.stderr.bytes@.len()
}

pub open spec fn tasks_bytes(ts: Seq<RetainedTask>) -> nat
    decreases ts.len(),
{
    if ts.len() == 0 {
        0
    } else {
        tasks_bytes(ts.drop_last()) + task_bytes(ts.last())
    }
}

pub open spec fn ledger_view(v: Seq<(u64, Vec<RetainedTask>)>) -> Seq<(u64, Seq<RetainedTask>)> {
    v.map_values(|g: (u64, Vec<RetainedTask>)| (g.0, g.1@))
}

pub open spec fn total_bytes(v: Seq<(u64, Seq<RetainedTask>)>) -> nat
    decreases v.len(),
{
    if v.len() == 0 {
        0
    } else {
        total_bytes(v.drop_last()) + tasks_bytes(v.last().1)
    }
}

/// Records a task's output in its generation: it replaces an earlier
/// record of the same task there (moving it last); a new generation is
/// appended.
pub open spec fn insert_spec(v: Seq<(u64, Seq<RetainedTask>)>, generation: u64, t: RetainedTask) -> Seq<(u64, Seq<RetainedTask>)> {
    match first_generation(v, generation) {
        Some(i) => v.update(i, (generation, v[i].1.filter(|x: RetainedTask| x.task@ != t.task@).push(t))),
        None => v.push((generation, seq![t])),
    }
}

/// The index of the first entry of `generation`.
pub open spec fn first_generation(v: Seq<(u64, Seq<RetainedTask>)>, generation: u64) -> Option<int>
    decreases v.len(),
{
    if v.len() == 0 {
        None
    } else {
        match first_generation(v.drop_last(), generation) {
            Some(i) => Some(i),
            None => if v.last().0 == generation {
                Some(v.len() - 1)
            } else {
                None
            },
        }
    }
}

/// Deterministic eviction: the oldest generations go first, until the
/// retained bytes fit the budget and the generation count its bound.
pub open spec fn evict_spec(v: Seq<(u64, Seq<RetainedTask>)>) -> Seq<(u64, Seq<RetainedTask>)>
    decreases v.len(),
{
    if v.len() > 0 && (total_bytes(v) > OUTPUT_RETENTION_BYTES || v.len() > OUTPUT_MAX_GENERATIONS) {
        evict_spec(v.drop_first())
    } else {
        v
    }
}

/// A byte count capped just above the budget, enough to compare with it.
pub open spec fn capped(n: nat) -> nat {
    if n > OUTPUT_RETENTION_BYTES {
        (OUTPUT_RETENTION_BYTES + 1) as nat
    } else {
        n
    }
}

fn retained_capped(ts: &Vec<RetainedTask>) -> (r: u64)
    ensures
        r == capped(tasks_bytes(ts@)),
{
    let mut acc: u64 = 0;
    let mut i: usize = 0;
    while i < ts.len()
        invariant
            i <= ts@.len(),
            acc == capped(tasks_bytes(ts@.take(i as int))),
        decreases ts@.len() - i,
    {
        proof {
            assert(ts@.take(i + 1).drop_last() =~= ts@.take(i as int));
            assert(ts@.take(i + 1).last() == ts@[i as int]);
        }
        let a = ts[i].stdout.bytes.len() as u64;
        let b = ts[i].stderr.bytes.len() as u64;
        let limit: u64 = OUTPUT_RETENTION_BYTES as u64 + 1;
        if a >= limit || b >= limit || acc + a + b > OUTPUT_RETENTION_BYTES as u64 {
            acc = limit;
        } else {
            acc = acc + a + b;
        }
        i = i + 1;
    }
    assert(ts@.take(ts@.len() as int) =~= ts@);
    acc
}

impl OutputLedger {
    pub fn new() -> (r: Self)
        ensures
            r.generations@.len() == 0,
    {
        OutputLedger { generations: Vec::new() }
    }

    /// The retained generations, oldest first.
    pub fn retained_generations(&self) -> (r: Vec<u64>)
        ensures
            r@ == ledger_view(self.generations@).map_values(|g: (u64, Seq<RetainedTask>)| g.0),
    {
        let ghost v = ledger_view(self.generations@);
        let mut out: Vec<u64> = Vec::new();
        let mut i: usize = 0;
        while i < self.generations.len()
            invariant
                i <= self.generations@.len(),
                v == ledger_view(self.generations@),
                out@ == v.map_values(|g: (u64, Seq<RetainedTask>)| g.0).take(i as int),
            decreases self.generations@.len() - i,
        {
            out.push(self.generations[i].0);
            i = i + 1;
            assert(out@ =~= v.map_values(|g: (u64, Seq<RetainedTask>)| g.0).take(i as int));
        }
        assert(v.map_values(|g: (u64, Seq<RetainedTask>)| g.0).take(i as int) =~= v.map_values(
            |g: (u64, Seq<RetainedTask>)| g.0,
        ));
        out
    }

    /// Whether the retained bytes exceed the budget.
    fn over_budget(&self) -> (r: bool)
        ensures
            r == (total_bytes(ledger_view(self.generations@)) > OUTPUT_RETENTION_BYTES),
    {
        let ghost v = ledger_view(self.generations@);
        let mut acc: u64 = 0;
        let mut i: usize = 0;
        while i < self.generations.len()
            invariant
                i <= self.generations@.len(),
                v == ledger_view(self.generations@),
                acc == total_bytes(v.take(i as int)),
                acc <= OUTPUT_RETENTION_BYTES,
            decreases self.generations@.len() - i,
        {
            proof {
                assert(v.take(i + 1).drop_last() =~= v.take(i as int));
                assert(v.take(i + 1).last() == v[i as int]);
            }
            let b = retained_capped(&self.generations[i].1);
            if acc + b > OUTPUT_RETENTION_BYTES as u64 {
                proof {
                    lemma_total_prefix_monotone(v, i as int + 1);
                }
                return true;
            }
            acc = acc + b;
            i = i + 1;
        }
        assert(v.take(v.len() as int) =~= v);
        false
    }
}

fn without_task(ts: Vec<RetainedTask>, name: &String) -> (r: Vec<RetainedTask>)
    ensures
        r@ == ts@.filter(|x: RetainedTask| x.task@ != name@),
{
    let ghost orig = ts@;
    let n0 = ts.len();
    let mut rest = ts;
    let nc = to_chars(name.as_str());
    let mut out: Vec<RetainedTask> = Vec::new();
    let mut k: usize = 0;
    while rest.len() > 0
        invariant
            k <= orig.len(),
            orig.len() == n0,
            rest@ == orig.skip(k as int),
            nc@ == name@,
            out@ == orig.take(k as int).filter(|x: RetainedTask| x.task@ != name@),
        decreases rest@.len(),
    {
        let x = rest.remove(0);
        proof {
            assert(x == orig[k as int]);
        }
        let keep = !crate::text::chars_eq(&to_chars(x.task.as_str()), &nc);
        if keep {
            out.push(x);
        }
        proof {
            let t = orig.take(k + 1);
            assert(t.drop_last() =~= orig.take(k as int));
            assert(t.last() == orig[k as int]);
            reveal(Seq::filter);
            assert(out@ =~= t.filter(|x: RetainedTask| x.task@ != name@));
            assert(rest@ =~= orig.skip(k + 1));
        }
        k = k + 1;
    }
    assert(orig.take(k as int) =~= orig);
    out
}

impl OutputLedger {
    fn find(&self, generation: u64) -> (r: Option<usize>)
        ensures
            match r {
                Some(i) => first_generation(ledger_view(self.generations@), generation) == Some(
                    i as int,
                ) && i < self.generations@.len(),
                None => first_generation(ledger_view(self.generations@), generation) is None,
            },
    {
        let ghost v = ledger_view(self.generations@);
        let mut i: usize = 0;
        while i < self.generations.len()
            invariant
                i <= self.generations@.len(),
                v == ledger_view(self.generations@),
                first_generation(v.take(i as int), generation) is None,
            decreases self.generations@.len() - i,
        {
            proof {
                assert(v.take(i + 1).drop_last() =~= v.take(i as int));
                assert(v.take(i + 1).last() == v[i as int]);
            }
            if self.generations[i].0 == generation {
                proof {
                    lemma_first_generation_prefix(v, i as int + 1, generation);
                }
                return Some(i);
            }
            i = i + 1;
        }
        assert(v.take(v.len() as int) =~= v);
        None
    }

    /// Records a task's output for its generation and evicts the oldest
    /// generations while the retained bytes exceed the budget or there are
    /// too many generations.
    pub fn record(&mut self, generation: u64, task: RetainedTask)
        ensures
            ledger_view(final(self).generations@) == evict_spec(
                insert_spec(ledger_view(old(self).generations@), generation, task),
            ),
    {
        let ghost v0 = ledger_view(self.generations@);
        match self.find(generation) {
            Some(i) => {
                let (g, tasks) = self.generations.remove(i);
                proof {
                    assert(g == generation) by {
                        lemma_first_generation_found(v0, generation);
                    }
                    assert(tasks@ == v0[i as int].1);
                }
                let ghost tv = task;
                let name = task.task.clone();
                let mut kept = without_task(tasks, &name);
                proof {
                    let f1 = |x: RetainedTask| x.task@ != name@;
                    let f2 = |x: RetainedTask| x.task@ != tv.task@;
                    assert(f1 =~= f2);
                    assert(kept@ == v0[i as int].1.filter(f2));
                }
                kept.push(task);
                let ghost before = ledger_view(self.generations@);
                self.generations.insert(i, (generation, kept));
                proof {
                    assert(before =~= v0.remove(i as int));
                    assert(ledger_view(self.generations@) =~= v0.update(i as int, (generation, v0[i as int].1.filter(|x: RetainedTask| x.task@ != tv.task@).push(tv))));
                    assert(ledger_view(self.generations@) =~= insert_spec(v0, generation, tv));
                }
            },
            None => {
                let ghost tv = task;
                let mut one: Vec<RetainedTask> = Vec::new();
                one.push(task);
                self.generations.push((generation, one));
                proof {
                    assert(one@ =~= seq![tv]);
                    assert(ledger_view(self.generations@) =~= v0.push((generation, seq![tv])));
                    assert(ledger_view(self.generations@) =~= insert_spec(v0, generation, tv));
                }
            },
        }
        let ghost target = evict_spec(ledger_view(self.generations@));
        while self.generations.len() > 0 && (self.over_budget() || self.generations.len() > OUTPUT_MAX_GENERATIONS)
            invariant
                evict_spec(ledger_view(self.generations@)) == target,
            decreases self.generations@.len(),
        {
            let ghost before = ledger_view(self.generations@);
            self.generations.remove(0);
            proof {
                assert(ledger_view(self.generations@) =~= before.drop_first());
            }
        }
    }
}

proof fn lemma_first_generation_found(v: Seq<(u64, Seq<RetainedTask>)>, generation: u64)
    ensures
        first_generation(v, generation) matches Some(i) ==> 0 <= i < v.len() && v[i].0 == generation,
    decreases v.len(),
{
    if v.len() > 0 {
        lemma_first_generation_found(v.drop_last(), generation);
    }
}

proof fn lemma_first_generation_prefix(v: Seq<(u64, Seq<RetainedTask>)>, n: int, generation: u64)
    requires
        0 < n <= v.len(),
        v[n - 1].0 == generation,
        first_generation(v.take(n - 1), generation) is None,
    ensures
        first_generation(v, generation) == Some(n - 1),
    decreases v.len(),
{
    assert(v.take(n).drop_last() =~= v.take(n - 1));
    if n < v.len() {
        assert(v.drop_last().take(n - 1) =~= v.take(n - 1));
        assert(v.drop_last()[n - 1] == v[n - 1]);
        lemma_first_generation_prefix(v.drop_last(), n, generation);
    } else {
        assert(v.take(n) =~= v);
    }
}

/// Retention is bounded and evicts oldest first: after eviction the retained
/// bytes fit the budget and the generation count its bound (or nothing is
/// retained), and what stays is a suffix of what was there, newest kept.
pub proof fn law_retention_is_bounded(v: Seq<(u64, Seq<RetainedTask>)>)
    ensures
        evict_spec(v).len() == 0 || (total_bytes(evict_spec(v)) <= OUTPUT_RETENTION_BYTES
            && evict_spec(v).len() <= OUTPUT_MAX_GENERATIONS),
        exists|k: int| 0 <= k <= v.len() && evict_spec(v) == v.skip(k),
    decreases v.len(),
{
    if v.len() > 0 && (total_bytes(v) > OUTPUT_RETENTION_BYTES || v.len() > OUTPUT_MAX_GENERATIONS) {
        law_retention_is_bounded(v.drop_first());
        let k = choose|k: int| 0 <= k <= v.drop_first().len() && evict_spec(v.drop_first()) == v.drop_first().skip(k);
        assert(v.drop_first().skip(k) =~= v.skip(k + 1));
    } else {
        assert(v.skip(0) =~= v);
    }
}

/// The retained bytes of a prefix never exceed those of the whole.
proof fn lemma_total_prefix_monotone(v: Seq<(u64, Seq<RetainedTask>)>, n: int)
    requires
        0 <= n <= v.len(),
    ensures
        total_bytes(v.take(n)) <= total_bytes(v),
    decreases v.len() - n,
{
    if n < v.len() {
        lemma_total_prefix_monotone(v, n + 1);
        assert(v.take(n + 1).drop_last() =~= v.take(n));
    } else {
        assert(v.take(n) =~= v);
    }
}

/// The excerpt failure evidence shows: the first `max_lines` lines of the
/// task's stdout and then its stderr, and whether lines were left out.
pub open spec fn excerpt_lines(out: Seq<char>, err: Seq<char>) -> Seq<Seq<char>> {
    lines_from(out, 0) + lines_from(err, 0)
}

pub open spec fn excerpt_spec(out: Seq<char>, err: Seq<char>, max_lines: nat) -> (Seq<char>, nat, bool) {
    let all = excerpt_lines(out, err);
    let n = if all.len() > max_lines {
        max_lines
    } else {
        all.len()
    };
    (crate::rules::concat_all(all.take(n as int)), n, all.len() > max_lines)
}

/// The excerpt of a task's two streams, bounded by `max_lines`.
pub fn excerpt(out: &str, err: &str, max_lines: usize) -> (r: (String, usize, bool))
    ensures
        (r.0@, r.1 as nat, r.2) == excerpt_spec(out@, err@, max_lines as nat),
{
    let lo = lines_of(&to_chars(out));
    let le = lines_of(&to_chars(err));
    let ghost all = excerpt_lines(out@, err@);
    let ghost lso = lines_from(out@, 0);
    let mut text: Vec<char> = Vec::new();
    let mut n: usize = 0;
    let mut truncated = false;
    let mut i: usize = 0;
    while i < lo.len()
        invariant
            i <= lo@.len(),
            lo@.len() == lso.len(),
            forall|m: int| 0 <= m < lo@.len() ==> #[trigger] lo@[m]@ == lso[m],
            all == excerpt_lines(out@, err@),
            lso == lines_from(out@, 0),
            n <= max_lines,
            n == (if i > max_lines { max_lines as int } else { i as int }),
            truncated == (i > max_lines),
            text@ == crate::rules::concat_all(all.take(n as int)),
        decreases lo@.len() - i,
    {
        if n >= max_lines {
            truncated = true;
        } else {
            let ghost before = text@;
            crate::text::extend_chars(&mut text, &lo[i]);
            proof {
                assert(all[n as int] == lso[i as int]);
                assert(all.take(n + 1) =~= all.take(n as int).push(all[n as int]));
                crate::rules::lemma_concat_all_push(all.take(n as int), all[n as int]);
            }
            n = n + 1;
        }
        i = i + 1;
    }
    let ghost lse = lines_from(err@, 0);
    let mut j: usize = 0;
    while j < le.len()
        invariant
            j <= le@.len(),
            le@.len() == lse.len(),
            forall|m: int| 0 <= m < le@.len() ==> #[trigger] le@[m]@ == lse[m],
            all == excerpt_lines(out@, err@),
            all.len() == lso.len() + lse.len(),
            lso.len() == lo@.len(),
            lse == lines_from(err@, 0),
            all == lso + lse,
            n <= max_lines,
            n == (if lso.len() + j > max_lines { max_lines as int } else { lso.len() + j }),
            truncated == (lso.len() + j > max_lines),
            text@ == crate::rules::concat_all(all.take(n as int)),
        decreases le@.len() - j,
    {
        if n >= max_lines {
            truncated = true;
        } else {
            crate::text::extend_chars(&mut text, &le[j]);
            proof {
                assert(all[n as int] == lse[j as int]);
                assert(all.take(n + 1) =~= all.take(n as int).push(all[n as int]));
                crate::rules::lemma_concat_all_push(all.take(n as int), all[n as int]);
            }
            n = n + 1;
        }
        j = j + 1;
    }
    (from_chars(&text), n, truncated)
}

/// Concise failure evidence for a generation: an excerpt of the primary
/// task's output, its sizes, truncation, the retrieval command, a
/// structured reference when output was retained, and how many other
/// tasks the generation retained.
#[derive(Clone, Debug, PartialEq, Eq)]
pub struct FailureEvidence {
    pub excerpt: String,
    pub lines: u64,
    pub truncated: bool,
    pub total_observed_bytes: u64,
    pub retained_bytes: u64,
    pub retrieve: String,
    pub output_ref: Option<OutputRef>,
    pub additional_failed_tasks: u64,
}

pub open spec fn task_names(ts: Seq<RetainedTask>) -> Seq<Seq<char>> {
    ts.map_values(|t: RetainedTask| t.task@)
}

/// The tasks of a generation other than `name`.
pub open spec fn others(ts: Seq<RetainedTask>, name: Seq<char>) -> nat {
    ts.filter(not_named(name)).len()
}

/// Whether a task is not the one named `name`.
pub open spec fn not_named(name: Seq<char>) -> spec_fn(RetainedTask) -> bool {
    |t: RetainedTask| t.task@ != name
}

/// The index of the first task named `name`.
pub open spec fn task_index(ts: Seq<RetainedTask>, name: Seq<char>) -> int {
    choose|k: int| 0 <= k < ts.len() && ts[k].task@ == name && forall|j: int| 0 <= j < k ==> ts[j].task@ != name
}

fn names_of(ts: &Vec<RetainedTask>) -> (r: Vec<String>)
    ensures
        views(r@) == task_names(ts@),
{
    let mut out: Vec<String> = Vec::new();
    let mut i: usize = 0;
    while i < ts.len()
        invariant
            i <= ts@.len(),
            views(out@) == task_names(ts@).take(i as int),
        decreases ts@.len() - i,
    {
        out.push(ts[i].task.clone());
        proof {
            assert(task_names(ts@).take(i + 1) =~= task_names(ts@).take(i as int).push(ts@[i as int].task@));
            assert(views(out@) =~= task_names(ts@).take(i + 1));
        }
        i = i + 1;
    }
    assert(task_names(ts@).take(ts@.len() as int) =~= task_names(ts@));
    out
}

impl OutputLedger {
    /// Failure evidence for `generation`: `None` when nothing is retained for
    /// it. The primary task is the first retained task that failed, else
    /// the first retained task; its excerpt holds at most `max_lines` lines.
    pub fn failure_evidence(&self, generation: u64, max_lines: usize, instance_token: &str, failed: &Vec<String>) -> (r: Option<FailureEvidence>)
        requires
            forall|i: int, k: int|
                0 <= i < self.generations@.len() && 0 <= k < self.generations@[i].1@.len() ==> {
                    let t = #[trigger] self.generations@[i].1@[k];
                    &&& t.stdout.observed_bytes + t.stderr.observed_bytes <= u64::MAX
                    &&& t.stdout.bytes@.len() + t.stderr.bytes@.len() <= u64::MAX
                },
        ensures
            match first_generation(ledger_view(self.generations@), generation) {
                None => r is None,
                Some(g) => {
                    let ts = ledger_view(self.generations@)[g].1;
                    if ts.len() == 0 {
                        r is None
                    } else {
                        let p = primary_spec(task_names(ts), views(failed@))->0;
                        let t = ts[task_index(ts, p)];
                        let out = utf8_lossy(t.stdout.bytes@);
                        let err = utf8_lossy(t.stderr.bytes@);
                        let ex = excerpt_spec(out, err, max_lines as nat);
                        let retained = t.stdout.bytes@.len() + t.stderr.bytes@.len();
                        r matches Some(e) && e.excerpt@ == ex.0 && e.lines == ex.1 && e.truncated == (
                        t.stdout.truncated || t.stderr.truncated || ex.2)
                            && e.total_observed_bytes == t.stdout.observed_bytes
                            + t.stderr.observed_bytes && e.retained_bytes == retained
                            && e.retrieve@ == legacy_retrieve_spec(generation, p)
                            && e.additional_failed_tasks == others(ts, p) && (e.output_ref
                            is Some <==> (retained > 0 && p.len() > 0)) && (e.output_ref matches Some(
                            o,
                        ) ==> o.task@ == p && o.generation == generation && o.instance_token@
                            == instance_token@ && o.retrieve@ == ref_command_spec(
                            instance_token@,
                            generation,
                            p,
                        ))
                    }
                },
            },
    {
        let ghost v = ledger_view(self.generations@);
        let g = match self.find(generation) {
            None => {
                return None;
            },
            Some(g) => g,
        };
        let tasks = &self.generations[g].1;
        proof {
            assert(v[g as int].1 == tasks@);
        }
        if tasks.len() == 0 {
            return None;
        }
        let names = names_of(tasks);
        let primary = match primary_task(&names, failed) {
            Some(p) => p,
            None => {
                return None;
            },
        };
        let ghost ts = tasks@;
        let ghost p = primary@;
        proof {
            lemma_primary_is_retained(task_names(ts), views(failed@));
        }
        let pc = to_chars(primary.as_str());
        let mut k: usize = 0;
        let mut found: usize = 0;
        let mut additional: u64 = 0;
        let mut seen = false;
        while k < tasks.len()
            invariant
                k <= ts.len(),
                ts == tasks@,
                pc@ == p,
                additional == ts.take(k as int).filter(not_named(p)).len(),
                additional <= k,
                seen ==> (found < k && ts[found as int].task@ == p && forall|j: int| 0 <= j < found ==> ts[j].task@ != p),
                !seen ==> forall|j: int| 0 <= j < k ==> ts[j].task@ != p,
            decreases ts.len() - k,
        {
            proof {
                assert(ts.take(k + 1).drop_last() =~= ts.take(k as int));
                assert(ts.take(k + 1).last() == ts[k as int]);
                reveal(Seq::filter);
            }
            if crate::text::chars_eq(&to_chars(tasks[k].task.as_str()), &pc) {
                if !seen {
                    found = k;
                    seen = true;
                }
            } else {
                additional = additional + 1;
            }
            k = k + 1;
        }
        proof {
            assert(ts.take(ts.len() as int) =~= ts);
            assert(others(ts, p) == additional);
            assert(seen) by {
                let m = choose|m: int| 0 <= m < task_names(ts).len() && task_names(ts)[m] == p;
                assert(ts[m].task@ == p);
            }
            assert(found as int == task_index(ts, p)) by {
                let c = task_index(ts, p);
                assert(exists|q: int| 0 <= q < ts.len() && ts[q].task@ == p && forall|j: int| 0 <= j < q ==> ts[j].task@ != p);
                if c < found {
                    assert(ts[c].task@ != p);
                }
                if c > found {
                    assert(ts[found as int].task@ != p);
                }
            }
        }
        let t = &tasks[found];
        let out = lossy_text(t.stdout.bytes.as_slice());
        let err = lossy_text(t.stderr.bytes.as_slice());
        let (text, lines, cut) = excerpt(out.as_str(), err.as_str(), max_lines);
        let retained = t.stdout.bytes.len() as u64 + t.stderr.bytes.len() as u64;
        let reference = if retained > 0 && pc.len() > 0 {
            Some(output_ref(instance_token, generation, primary.as_str()))
        } else {
            None
        };
        Some(FailureEvidence {
            excerpt: text,
            lines: lines as u64,
            truncated: t.stdout.truncated || t.stderr.truncated || cut,
            total_observed_bytes: t.stdout.observed_bytes + t.stderr.observed_bytes,
            retained_bytes: retained,
            retrieve: legacy_retrieve_command(generation, primary.as_str()),
            output_ref: reference,
            additional_failed_tasks: additional,
        })
    }
}

/// The primary task is one of the retained tasks.
proof fn lemma_primary_is_retained(names: Seq<Seq<char>>, failed: Seq<Seq<char>>)
    requires
        names.len() > 0,
    ensures
        primary_spec(names, failed) is Some,
        names.contains(primary_spec(names, failed)->0),
{
    let f = |id: Seq<char>| failed.contains(id);
    let hits = names.filter(f);
    if hits.len() > 0 {
        names.lemma_filter_contains_rev(f, hits[0]);
        assert(hits.contains(hits[0]));
    } else {
        assert(names[0] == names[0]);
    }
}

} // verus!
