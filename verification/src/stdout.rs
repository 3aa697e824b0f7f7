//! Presentation: the texts of user messages and the per-job duration table.
//! Printing, logging, reading the color setting and formatting fractional
//! seconds are done by the caller.
use vstd::prelude::*;

use crate::task_result::{TaskSnapshot, TaskState};
use crate::text::{extend_chars, from_chars, to_chars};

verus! {

/// Bytes of one character in UTF-8.
pub open spec fn char_utf8_len(c: char) -> nat {
    if (c as u32) < 0x80 {
        1
    } else if (c as u32) < 0x800 {
        2
    } else if (c as u32) < 0x10000 {
        3
    } else {
        4
    }
}

/// Bytes of a text in UTF-8 (`String::len`).
pub open spec fn utf8_len(s: Seq<char>) -> nat
    decreases s.len(),
{
    if s.len() == 0 {
        0
    } else {
        utf8_len(s.drop_last()) + char_utf8_len(s.last())
    }
}

/// How a task is named in the table: its name, preceded by its id in
/// brackets when the two differ.
pub open spec fn identity(t: TaskSnapshot) -> Seq<char> {
    if t.id@ == t.name@ {
        t.name@
    } else {
        "["@ + t.id@ + "] "@ + t.name@
    }
}

pub open spec fn state_label(s: TaskState) -> Seq<char> {
    match s {
        TaskState::Passed => "passed"@,
        TaskState::Failed => "failed"@,
        TaskState::Cancelled => "cancelled"@,
        TaskState::TimedOut => "timedout"@,
    }
}

/// The largest of `floor` and the values.
pub open spec fn max_of(floor: nat, values: Seq<nat>) -> nat
    decreases values.len(),
{
    if values.len() == 0 {
        floor
    } else {
        let m = max_of(floor, values.drop_last());
        if values.last() > m {
            values.last()
        } else {
            m
        }
    }
}

/// `s` followed by spaces up to `width` characters (as `{:<width$}`).
pub open spec fn pad(s: Seq<char>, width: nat) -> Seq<char> {
    if s.len() >= width {
        s
    } else {
        s + Seq::new((width - s.len()) as nat, |i: int| ' ')
    }
}

/// The width of the job column: the longest identity in bytes, and at least
/// the header's.
pub open spec fn name_width(tasks: Seq<TaskSnapshot>) -> nat {
    max_of(3, tasks.map_values(|t: TaskSnapshot| utf8_len(identity(t))))
}

/// The width of the result column.
pub open spec fn state_width(tasks: Seq<TaskSnapshot>) -> nat {
    max_of(6, tasks.map_values(|t: TaskSnapshot| state_label(t.state).len()))
}

/// One table line: identity, result and duration in aligned columns.
pub open spec fn table_line(job: Seq<char>, result: Seq<char>, duration: Seq<char>, nw: nat, sw: nat) -> Seq<char> {
    pad(job, nw) + "  "@ + pad(result, sw) + "  "@ + duration
}

/// The duration column of a task: its formatted duration, or `-` when it
/// has none.
pub open spec fn duration_cell(t: TaskSnapshot, formatted: Seq<char>) -> Seq<char> {
    if t.duration_ms is Some {
        formatted
    } else {
        "-"@
    }
}

fn identity_of(t: &TaskSnapshot) -> (r: Vec<char>)
    ensures
        r@ == identity(*t),
{
    let id = to_chars(t.id.as_str());
    let name = to_chars(t.name.as_str());
    if crate::text::chars_eq(&id, &name) {
        name
    } else {
        let mut r = to_chars("[");
        extend_chars(&mut r, &id);
        extend_chars(&mut r, &to_chars("] "));
        extend_chars(&mut r, &name);
        r
    }
}

fn label_of(s: TaskState) -> (r: Vec<char>)
    ensures
        r@ == state_label(s),
{
    match s {
        TaskState::Passed => to_chars("passed"),
        TaskState::Failed => to_chars("failed"),
        TaskState::Cancelled => to_chars("cancelled"),
        TaskState::TimedOut => to_chars("timedout"),
    }
}

fn utf8_len_of(s: &[char]) -> (r: u128)
    ensures
        r == utf8_len(s@),
{
    let mut n: u128 = 0;
    let mut i: usize = 0;
    while i < s.len()
        invariant
            i <= s@.len(),
            n == utf8_len(s@.take(i as int)),
            n <= 4 * i,
        decreases s@.len() - i,
    {
        proof {
            assert(s@.take(i + 1).drop_last() =~= s@.take(i as int));
        }
        let c = s[i] as u32;
        n = if c < 0x80 {
            n + 1
        } else if c < 0x800 {
            n + 2
        } else if c < 0x10000 {
            n + 3
        } else {
            n + 4
        };
        i = i + 1;
    }
    assert(s@.take(s@.len() as int) =~= s@);
    n
}

fn pad_chars(s: &[char], width: u128) -> (r: Vec<char>)
    ensures
        r@ == pad(s@, width as nat),
{
    let mut r: Vec<char> = Vec::new();
    extend_chars(&mut r, s);
    let len = s.len() as u128;
    if len >= width {
        return r;
    }
    let mut k: u128 = 0;
    while k < width - len
        invariant
            len == s@.len(),
            len < width,
            k <= width - len,
            r@ == s@ + Seq::new(k as nat, |i: int| ' '),
        decreases width - len - k,
    {
        r.push(' ');
        k = k + 1;
        assert(r@ =~= s@ + Seq::new(k as nat, |i: int| ' '));
    }
    r
}

/// The deterministic per-job duration table shared by every local result
/// path: a header, then one line per task in the given (declaration) order.
/// `formatted_durations[i]` is the formatted duration of task `i`, used when
/// it has one. No tasks, no table.
pub fn job_duration_rows(tasks: &[TaskSnapshot], formatted_durations: &[String]) -> (r: Vec<String>)
    requires
        formatted_durations@.len() == tasks@.len(),
    ensures
        tasks@.len() == 0 ==> r@.len() == 0,
        tasks@.len() > 0 ==> r@.len() == tasks@.len() + 1,
        tasks@.len() > 0 ==> r@[0]@ == table_line(
            "JOB"@,
            "RESULT"@,
            "DURATION"@,
            name_width(tasks@),
            state_width(tasks@),
        ),
        forall|i: int|
            0 <= i < tasks@.len() ==> (#[trigger] r@[i + 1])@ == table_line(
                identity(tasks@[i]),
                state_label(tasks@[i].state),
                duration_cell(tasks@[i], formatted_durations@[i]@),
                name_width(tasks@),
                state_width(tasks@),
            ),
{
    let mut rows: Vec<String> = Vec::new();
    if tasks.len() == 0 {
        return rows;
    }
    let ghost ts = tasks@;
    let ghost name_lens = ts.map_values(|t: TaskSnapshot| utf8_len(identity(t)));
    let ghost state_lens = ts.map_values(|t: TaskSnapshot| state_label(t.state).len());
    let mut nw: u128 = 3;
    let mut sw: u128 = 6;
    let mut i: usize = 0;
    while i < tasks.len()
        invariant
            i <= ts.len(),
            ts == tasks@,
            name_lens == ts.map_values(|t: TaskSnapshot| utf8_len(identity(t))),
            state_lens == ts.map_values(|t: TaskSnapshot| state_label(t.state).len()),
            nw == max_of(3, name_lens.take(i as int)),
            sw == max_of(6, state_lens.take(i as int)),
        decreases ts.len() - i,
    {
        proof {
            assert(name_lens.take(i + 1).drop_last() =~= name_lens.take(i as int));
            assert(state_lens.take(i + 1).drop_last() =~= state_lens.take(i as int));
        }
        let n = utf8_len_of(&identity_of(&tasks[i]));
        if n > nw {
            nw = n;
        }
        let s = label_of(tasks[i].state).len() as u128;
        if s > sw {
            sw = s;
        }
        i = i + 1;
    }
    proof {
        assert(name_lens.take(ts.len() as int) =~= name_lens);
        assert(state_lens.take(ts.len() as int) =~= state_lens);
    }
    let mut header = pad_chars(&to_chars("JOB"), nw);
    extend_chars(&mut header, &to_chars("  "));
    extend_chars(&mut header, &pad_chars(&to_chars("RESULT"), sw));
    extend_chars(&mut header, &to_chars("  "));
    extend_chars(&mut header, &to_chars("DURATION"));
    rows.push(from_chars(&header));
    let mut j: usize = 0;
    while j < tasks.len()
        invariant
            j <= ts.len(),
            ts == tasks@,
            formatted_durations@.len() == ts.len(),
            nw == name_width(ts),
            sw == state_width(ts),
            rows@.len() == j + 1,
            rows@[0]@ == table_line("JOB"@, "RESULT"@, "DURATION"@, nw as nat, sw as nat),
            forall|k: int|
                0 <= k < j ==> (#[trigger] rows@[k + 1])@ == table_line(
                    identity(ts[k]),
                    state_label(ts[k].state),
                    duration_cell(ts[k], formatted_durations@[k]@),
                    nw as nat,
                    sw as nat,
                ),
        decreases ts.len() - j,
    {
        let t = &tasks[j];
        let mut line = pad_chars(&identity_of(t), nw);
        extend_chars(&mut line, &to_chars("  "));
        extend_chars(&mut line, &pad_chars(&label_of(t.state), sw));
        extend_chars(&mut line, &to_chars("  "));
        match t.duration_ms {
            Some(_) => extend_chars(&mut line, &to_chars(formatted_durations[j].as_str())),
            None => extend_chars(&mut line, &to_chars("-")),
        }
        rows.push(from_chars(&line));
        j = j + 1;
    }
    rows
}

// ANSI color codes for terminal output.
pub const GREEN: &'static str = "\x1b[32m";
pub const RED: &'static str = "\x1b[31m";
pub const BLUE: &'static str = "\x1b[34m";
pub const RESET: &'static str = "\x1b[0m";

/// `label` as a message prefix, colored when asked: the label then `: `.
pub open spec fn prefixed(color: Seq<char>, label: Seq<char>, colored: bool, msg: Seq<char>) -> Seq<char> {
    if colored {
        color + label + RESET@ + ": "@ + msg
    } else {
        label + ": "@ + msg
    }
}

fn prefixed_message(color: &str, label: &str, colored: bool, msg: &str) -> (r: String)
    ensures
        r@ == prefixed(color@, label@, colored, msg@),
{
    let mut out: Vec<char> = Vec::new();
    if colored {
        extend_chars(&mut out, &to_chars(color));
        extend_chars(&mut out, &to_chars(label));
        extend_chars(&mut out, &to_chars(RESET));
    } else {
        extend_chars(&mut out, &to_chars(label));
    }
    extend_chars(&mut out, &to_chars(": "));
    extend_chars(&mut out, &to_chars(msg));
    proof {
        if colored {
            assert(out@ =~= color@ + label@ + RESET@ + ": "@ + msg@);
        } else {
            assert(out@ =~= label@ + ": "@ + msg@);
        }
    }
    from_chars(&out)
}

/// The text of an information message.
pub fn info_message(msg: &str, colored: bool) -> (r: String)
    ensures
        r@ == prefixed(BLUE@, "Funzzy"@, colored, msg@),
{
    prefixed_message(BLUE, "Funzzy", colored, msg)
}

/// The text of an error message.
pub fn error_message(msg: &str, colored: bool) -> (r: String)
    ensures
        r@ == prefixed(RED@, "Funzzy error"@, colored, msg@),
{
    prefixed_message(RED, "Funzzy error", colored, msg)
}

/// The text of a warning, never colored.
pub fn warn_message(msg: &str) -> (r: String)
    ensures
        r@ == prefixed(RED@, "Funzzy warning"@, false, msg@),
{
    prefixed_message(RED, "Funzzy warning", false, msg)
}

/// The header of a fatal failure.
pub fn failure_header(text: &str, colored: bool) -> (r: String)
    ensures
        r@ == prefixed(RED@, "Error"@, colored, text@),
{
    prefixed_message(RED, "Error", colored, text)
}


/// Tasks in different states get different result labels, each the
/// state's own word.
pub proof fn lemma_labels_distinct()
    ensures
        forall|s: TaskState, t: TaskState| state_label(s) == state_label(t) ==> s == t,
        forall|s: TaskState| (#[trigger] state_label(s) == "passed"@) <==> s is Passed,
        forall|s: TaskState| (#[trigger] state_label(s) == "failed"@) <==> s is Failed,
        forall|s: TaskState| (#[trigger] state_label(s) == "cancelled"@) <==> s is Cancelled,
        forall|s: TaskState| (#[trigger] state_label(s) == "timedout"@) <==> s is TimedOut,
{
    reveal_strlit("passed");
    reveal_strlit("failed");
    reveal_strlit("cancelled");
    reveal_strlit("timedout");
    assert forall|s: TaskState, t: TaskState| state_label(s) == state_label(t) implies s == t by {
        if s != t {
            let (a, b) = (state_label(s), state_label(t));
            assert(a.len() != b.len() || a[0] != b[0]);
        }
    }
    assert(state_label(TaskState::Passed) == "passed"@);
    assert(state_label(TaskState::Failed) == "failed"@);
    assert(state_label(TaskState::Cancelled) == "cancelled"@);
    assert(state_label(TaskState::TimedOut) == "timedout"@);
}

/// The result cell of a task names the task's own state: "passed",
/// "failed", "cancelled" and "timedout" label exactly the passed, failed,
/// cancelled and timed-out tasks, so tasks in different states never share
/// a label; and every task row of a table carries its task's label in the
/// result column, right after the job column and its two-space gap.
pub proof fn law_result_label_names_state(
    s: TaskState,
    t: TaskState,
    job: Seq<char>,
    duration: Seq<char>,
    nw: nat,
    sw: nat,
)
    ensures
        (state_label(s) == "passed"@) <==> s is Passed,
        (state_label(s) == "failed"@) <==> s is Failed,
        (state_label(s) == "cancelled"@) <==> s is Cancelled,
        (state_label(s) == "timedout"@) <==> s is TimedOut,
        state_label(s) == state_label(t) ==> s == t,
        table_line(job, state_label(s), duration, nw, sw).subrange(
            (pad(job, nw).len() + 2) as int,
            (pad(job, nw).len() + 2 + state_label(s).len()) as int,
        ) == state_label(s),
{
    lemma_labels_distinct();
    let line = table_line(job, state_label(s), duration, nw, sw);
    let a = pad(job, nw) + "  "@;
    reveal_strlit("  ");
    assert(a.len() == pad(job, nw).len() + 2);
    let p = pad(state_label(s), sw);
    assert(p.subrange(0, state_label(s).len() as int) =~= state_label(s));
    assert(line == a + p + "  "@ + duration);
    assert(line.subrange(a.len() as int, (a.len() + state_label(s).len()) as int) =~= p.subrange(
        0,
        state_label(s).len() as int,
    ));
}

} // verus!
