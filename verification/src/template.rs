//! Pure command template expansion.
//!
//! Expands `{{filepath}}`, `{{absolute_path}}`, `{{relative_filepath}}`,
//! `{{relative_path}}` and `{{paths}}` placeholders inside commands. Unknown
//! variables are collected and reported to the caller, which decides how to
//! present them.
use vstd::prelude::*;

use crate::rules::{CommandLine, CommandSpec};
use crate::text::{
    chars_eq, clone_strings, contains, contains_exec, extend_chars, find_from, from_chars, join,
    lemma_find_from_bounds, lemma_split_contains, matches_at, split_from,
    replace_all, replace_exec, slice_chars, split, split_exec, to_chars, trim, trim_exec, views,
};

verus! {

#[derive(Clone)]
pub struct TemplateOptions {
    pub filepath: Option<String>,
    /// Complete normalized changed-path set of the triggering batch: exposed
    /// as `{{paths}}`. Empty for runs without a batch.
    pub paths: Vec<String>,
    pub current_dir: String,
}

pub struct TemplateOutput {
    pub commands: Vec<String>,
    pub unknown_variables: Vec<String>,
}

pub struct TemplateLineOutput {
    pub command: CommandLine,
    pub unknown_variables: Vec<String>,
}

impl TemplateOptions {
    /// A copy of these options.
    pub fn duplicate(&self) -> (r: TemplateOptions)
        ensures
            filepath_of(r) == filepath_of(*self),
            views(r.paths@) == views(self.paths@),
            r.current_dir@ == self.current_dir@,
    {
        TemplateOptions {
            filepath: match &self.filepath {
                Some(f) => Some(f.clone()),
                None => None,
            },
            paths: clone_strings(&self.paths),
            current_dir: self.current_dir.clone(),
        }
    }
}

/// Expansion of a list of command lines: the expanded lines in order and
/// the unknown variables of all of them, in order of occurrence.
pub open spec fn expand_lines(
    lines: Seq<CommandSpec>,
    filepath: Seq<char>,
    paths: Seq<char>,
    current_dir: Seq<char>,
) -> (Seq<CommandSpec>, Seq<Seq<char>>)
    decreases lines.len(),
{
    if lines.len() == 0 {
        (Seq::empty(), Seq::empty())
    } else {
        let prev = expand_lines(lines.drop_last(), filepath, paths, current_dir);
        let last = expand_line_spec(lines.last(), filepath, paths, current_dir);
        (prev.0.push(last.0), prev.1 + last.1)
    }
}

/// A path single-quoted for the shell, embedded single quotes escaped.
pub open spec fn shell_escape_spec(p: Seq<char>) -> Seq<char> {
    seq!['\''] + replace_all(p, seq!['\''], seq!['\'', '\\', '\'', '\'']) + seq!['\'']
}

/// Every path shell-escaped, joined by single spaces.
pub open spec fn render_paths_spec(paths: Seq<Seq<char>>) -> Seq<char> {
    join(paths.map_values(|p: Seq<char>| shell_escape_spec(p)), seq![' '])
}

/// The value substituted for `{{relative_filepath}}`: the trigger path with
/// every occurrence of `current_dir + "/"` removed.
pub open spec fn relative_spec(filepath: Seq<char>, current_dir: Seq<char>) -> Seq<char> {
    replace_all(filepath, current_dir.push('/'), Seq::empty())
}

/// Expansion of one piece that followed a `{{` (or the leading piece):
/// the output text and the unknown variable it reports, if any.
pub open spec fn expand_piece(
    part: Seq<char>,
    filepath: Seq<char>,
    paths: Seq<char>,
    current_dir: Seq<char>,
) -> (Seq<char>, Option<Seq<char>>) {
    if contains(part, "}}"@) {
        let pieces = split(part, "}}"@);
        let raw = pieces[0];
        let rest = pieces[1];
        let tpl = trim(raw);
        if tpl == "filepath"@ || tpl == "absolute_path"@ {
            (filepath + rest, None)
        } else if tpl == "relative_filepath"@ || tpl == "relative_path"@ {
            (relative_spec(filepath, current_dir) + rest, None)
        } else if tpl == "paths"@ {
            (paths + rest, None)
        } else {
            ("{{"@ + raw + "}}"@ + rest, Some(tpl))
        }
    } else {
        (part, None)
    }
}

/// Expansion of a sequence of pieces: outputs concatenated, unknown
/// variables collected in order.
pub open spec fn expand_pieces(
    parts: Seq<Seq<char>>,
    filepath: Seq<char>,
    paths: Seq<char>,
    current_dir: Seq<char>,
) -> (Seq<char>, Seq<Seq<char>>)
    decreases parts.len(),
{
    if parts.len() == 0 {
        (Seq::empty(), Seq::empty())
    } else {
        let prev = expand_pieces(parts.drop_last(), filepath, paths, current_dir);
        let last = expand_piece(parts.last(), filepath, paths, current_dir);
        (
            prev.0 + last.0,
            match last.1 {
                Some(v) => prev.1.push(v),
                None => prev.1,
            },
        )
    }
}

/// Expansion of one command: unchanged when it holds no `{{`, otherwise
/// every piece between `{{` separators expanded.
pub open spec fn expand_command_spec(
    command: Seq<char>,
    filepath: Seq<char>,
    paths: Seq<char>,
    current_dir: Seq<char>,
) -> (Seq<char>, Seq<Seq<char>>) {
    if contains(command, "{{"@) {
        expand_pieces(split(command, "{{"@), filepath, paths, current_dir)
    } else {
        (command, Seq::empty())
    }
}

/// Expansion of a list of commands: the expanded commands in order and the
/// unknown variables of all of them, in order of occurrence.
pub open spec fn expand_all(
    commands: Seq<Seq<char>>,
    filepath: Seq<char>,
    paths: Seq<char>,
    current_dir: Seq<char>,
) -> (Seq<Seq<char>>, Seq<Seq<char>>)
    decreases commands.len(),
{
    if commands.len() == 0 {
        (Seq::empty(), Seq::empty())
    } else {
        let prev = expand_all(commands.drop_last(), filepath, paths, current_dir);
        let last = expand_command_spec(commands.last(), filepath, paths, current_dir);
        (prev.0.push(last.0), prev.1 + last.1)
    }
}

/// The trigger path of the options (empty when absent).
pub open spec fn filepath_of(opts: TemplateOptions) -> Seq<char> {
    match opts.filepath {
        Some(f) => f@,
        None => Seq::empty(),
    }
}

/// The rendered `{{paths}}` value of the options.
pub open spec fn paths_of(opts: TemplateOptions) -> Seq<char> {
    render_paths_spec(views(opts.paths@))
}

/// Single-quotes a path for shell use, escaping embedded single quotes.
pub fn shell_escape(path: &str) -> (r: String)
    ensures
        r@ == shell_escape_spec(path@),
{
    let p = to_chars(path);
    let quote = vec!['\''];
    let escaped = vec!['\'', '\\', '\'', '\''];
    let replaced = replace_exec(&p, &quote, &escaped);
    let mut out: Vec<char> = vec!['\''];
    extend_chars(&mut out, &replaced);
    out.push('\'');
    assert(quote@ =~= seq!['\'']);
    assert(escaped@ =~= seq!['\'', '\\', '\'', '\'']);
    assert(out@ =~= shell_escape_spec(path@));
    from_chars(&out)
}

/// Renders the complete changed-path set for `{{paths}}`: paths are
/// shell-escaped and space-joined so a single expansion stays one safe
/// argument list.
pub fn render_paths(paths: &[String]) -> (r: String)
    ensures
        r@ == render_paths_spec(views(paths@)),
{
    let ghost target = views(paths@).map_values(|p: Seq<char>| shell_escape_spec(p));
    let mut out: Vec<char> = Vec::new();
    let mut i: usize = 0;
    while i < paths.len()
        invariant
            i <= paths@.len(),
            target == views(paths@).map_values(|p: Seq<char>| shell_escape_spec(p)),
            out@ == join(target.take(i as int), seq![' ']),
        decreases paths@.len() - i,
    {
        let e = shell_escape(paths[i].as_str());
        let ec = to_chars(e.as_str());
        if i > 0 {
            out.push(' ');
        }
        extend_chars(&mut out, &ec);
        proof {
            let t = target.take(i + 1);
            assert(t.drop_last() =~= target.take(i as int));
            assert(t.last() == shell_escape_spec(paths@[i as int]@));
            if i == 0 {
                assert(t =~= seq![t[0]]);
                assert(out@ =~= ec@);
            } else {
                assert(out@ =~= join(target.take(i as int), seq![' ']) + seq![' '] + ec@);
            }
        }
        i = i + 1;
    }
    assert(target.take(paths@.len() as int) =~= target);
    from_chars(&out)
}

/// Expansion of one piece; see [`expand_piece`].
fn expand_one_piece(
    part: &[char],
    filepath: &[char],
    paths: &[char],
    current_dir: &[char],
) -> (r: (Vec<char>, Option<Vec<char>>))
    ensures
        r.0@ == expand_piece(part@, filepath@, paths@, current_dir@).0,
        match (r.1, expand_piece(part@, filepath@, paths@, current_dir@).1) {
            (Some(a), Some(b)) => a@ == b,
            (None, None) => true,
            _ => false,
        },
{
    let close = to_chars("}}");
    let open = to_chars("{{");
    proof {
        reveal_strlit("}}");
        reveal_strlit("{{");
    }
    if !contains_exec(part, &close) {
        return (slice_chars(part, 0, part.len()), None);
    }
    let pieces = split_exec(part, &close);
    proof {
        lemma_split_contains(part@, close@);
    }
    let raw = &pieces[0];
    let rest = &pieces[1];
    let tpl = trim_exec(raw);
    let mut out: Vec<char> = Vec::new();
    if chars_eq(&tpl, &to_chars("filepath")) || chars_eq(&tpl, &to_chars("absolute_path")) {
        extend_chars(&mut out, filepath);
        extend_chars(&mut out, rest);
        (out, None)
    } else if chars_eq(&tpl, &to_chars("relative_filepath")) || chars_eq(
        &tpl,
        &to_chars("relative_path"),
    ) {
        let mut prefix = slice_chars(current_dir, 0, current_dir.len());
        prefix.push('/');
        assert(prefix@ =~= current_dir@.push('/'));
        let relative = replace_exec(filepath, &prefix, &Vec::new());
        extend_chars(&mut out, &relative);
        extend_chars(&mut out, rest);
        (out, None)
    } else if chars_eq(&tpl, &to_chars("paths")) {
        extend_chars(&mut out, paths);
        extend_chars(&mut out, rest);
        (out, None)
    } else {
        extend_chars(&mut out, &open);
        extend_chars(&mut out, raw);
        extend_chars(&mut out, &close);
        extend_chars(&mut out, rest);
        (out, Some(tpl))
    }
}

/// Expands one command, appending its unknown variables to
/// `unknown_variables`.
fn expand_command(
    command: &str,
    filepath: &str,
    paths: &str,
    current_dir: &str,
    unknown_variables: &mut Vec<String>,
) -> (r: String)
    ensures
        r@ == expand_command_spec(command@, filepath@, paths@, current_dir@).0,
        views(final(unknown_variables)@) == views(old(unknown_variables)@) + expand_command_spec(
            command@,
            filepath@,
            paths@,
            current_dir@,
        ).1,
{
    let cmd = to_chars(command);
    let fp = to_chars(filepath);
    let ps = to_chars(paths);
    let cwd = to_chars(current_dir);
    let open = to_chars("{{");
    proof {
        reveal_strlit("{{");
    }
    if !contains_exec(&cmd, &open) {
        assert(views(unknown_variables@) =~= views(old(unknown_variables)@) + Seq::empty());
        return from_chars(&cmd);
    }
    let parts = split_exec(&cmd, &open);
    let ghost sparts = split(cmd@, open@);
    let mut out: Vec<char> = Vec::new();
    let mut i: usize = 0;
    while i < parts.len()
        invariant
            i <= parts@.len(),
            parts@.len() == sparts.len(),
            forall|k: int| 0 <= k < parts@.len() ==> #[trigger] parts@[k]@ == sparts[k],
            out@ == expand_pieces(sparts.take(i as int), fp@, ps@, cwd@).0,
            views(unknown_variables@) == views(old(unknown_variables)@) + expand_pieces(
                sparts.take(i as int),
                fp@,
                ps@,
                cwd@,
            ).1,
        decreases parts@.len() - i,
    {
        let (piece_out, unknown) = expand_one_piece(&parts[i], &fp, &ps, &cwd);
        extend_chars(&mut out, &piece_out);
        proof {
            assert(sparts.take(i + 1).drop_last() =~= sparts.take(i as int));
            assert(sparts.take(i + 1).last() == sparts[i as int]);
        }
        let ghost before = views(unknown_variables@);
        match unknown {
            Some(v) => {
                let name = from_chars(&v);
                unknown_variables.push(name);
                assert(views(unknown_variables@) =~= before.push(v@));
                assert(views(unknown_variables@) =~= views(old(unknown_variables)@)
                    + expand_pieces(sparts.take(i + 1), fp@, ps@, cwd@).1);
            },
            None => {},
        }
        i = i + 1;
    }
    assert(sparts.take(parts@.len() as int) =~= sparts);
    from_chars(&out)
}

/// Expands every command of a list, collecting unknown variables.
fn expand_list(
    commands: &Vec<String>,
    filepath: &str,
    paths: &str,
    current_dir: &str,
) -> (r: (Vec<String>, Vec<String>))
    ensures
        views(r.0@) == expand_all(views(commands@), filepath@, paths@, current_dir@).0,
        views(r.1@) == expand_all(views(commands@), filepath@, paths@, current_dir@).1,
{
    let ghost cs = views(commands@);
    let mut expanded: Vec<String> = Vec::new();
    let mut unknown: Vec<String> = Vec::new();
    let mut i: usize = 0;
    while i < commands.len()
        invariant
            i <= commands@.len(),
            cs == views(commands@),
            views(expanded@) == expand_all(cs.take(i as int), filepath@, paths@, current_dir@).0,
            views(unknown@) == expand_all(cs.take(i as int), filepath@, paths@, current_dir@).1,
        decreases commands@.len() - i,
    {
        let e = expand_command(commands[i].as_str(), filepath, paths, current_dir, &mut unknown);
        expanded.push(e);
        proof {
            assert(cs.take(i + 1).drop_last() =~= cs.take(i as int));
            assert(views(expanded@) =~= expand_all(cs.take(i + 1), filepath@, paths@, current_dir@).0);
        }
        i = i + 1;
    }
    assert(cs.take(commands@.len() as int) =~= cs);
    (expanded, unknown)
}

fn filepath_string(opts: &TemplateOptions) -> (r: String)
    ensures
        r@ == filepath_of(*opts),
{
    match &opts.filepath {
        Some(val) => val.clone(),
        None => String::new(),
    }
}

/// Expands every command with the options' trigger path, batch paths and
/// current directory. Unknown variables are reported once per occurrence.
pub fn template(commands: Vec<String>, opts: TemplateOptions) -> (r: TemplateOutput)
    ensures
        views(r.commands@) == expand_all(
            views(commands@),
            filepath_of(opts),
            paths_of(opts),
            opts.current_dir@,
        ).0,
        views(r.unknown_variables@) == expand_all(
            views(commands@),
            filepath_of(opts),
            paths_of(opts),
            opts.current_dir@,
        ).1,
{
    let filepath = filepath_string(&opts);
    let paths = render_paths(opts.paths.as_slice());
    let (commands, unknown_variables) = expand_list(
        &commands,
        filepath.as_str(),
        paths.as_str(),
        opts.current_dir.as_str(),
    );
    TemplateOutput { commands, unknown_variables }
}

/// The command line after expansion: a shell line expands as one command; an
/// argv vector expands element by element and stays an argv vector.
pub open spec fn expand_line_spec(
    command: CommandSpec,
    filepath: Seq<char>,
    paths: Seq<char>,
    current_dir: Seq<char>,
) -> (CommandSpec, Seq<Seq<char>>) {
    match command {
        CommandSpec::Shell(c) => {
            let e = expand_command_spec(c, filepath, paths, current_dir);
            (CommandSpec::Shell(e.0), e.1)
        },
        CommandSpec::Argv(a) => {
            let e = expand_all(a, filepath, paths, current_dir);
            (CommandSpec::Argv(e.0), e.1)
        },
    }
}

/// Expands command templates inside an execution command line, preserving
/// the argv boundary for ad-hoc `exec` rules: each argv element is expanded
/// independently, and the result stays an argv vector (never joined).
pub fn template_line(command: CommandLine, opts: TemplateOptions) -> (r: TemplateLineOutput)
    ensures
        r.command@ == expand_line_spec(
            command@,
            filepath_of(opts),
            paths_of(opts),
            opts.current_dir@,
        ).0,
        views(r.unknown_variables@) == expand_line_spec(
            command@,
            filepath_of(opts),
            paths_of(opts),
            opts.current_dir@,
        ).1,
{
    let filepath = filepath_string(&opts);
    let paths = render_paths(opts.paths.as_slice());
    match command {
        CommandLine::Shell(command) => {
            let mut unknown_variables: Vec<String> = Vec::new();
            let e = expand_command(
                command.as_str(),
                filepath.as_str(),
                paths.as_str(),
                opts.current_dir.as_str(),
                &mut unknown_variables,
            );
            assert(views(unknown_variables@) =~= expand_command_spec(
                command@,
                filepath@,
                paths@,
                opts.current_dir@,
            ).1);
            TemplateLineOutput { command: CommandLine::Shell(e), unknown_variables }
        },
        CommandLine::Argv(argv) => {
            let (expanded, unknown_variables) = expand_list(
                &argv,
                filepath.as_str(),
                paths.as_str(),
                opts.current_dir.as_str(),
            );
            TemplateLineOutput { command: CommandLine::Argv(expanded), unknown_variables }
        },
    }
}

// ---------------------------------------------------------------------------
// How a POSIX shell reads rendered paths back
// ---------------------------------------------------------------------------

/// What a path character becomes inside single quotes: itself, except that
/// a single quote closes the quoting, is given escaped, and reopens it.
pub open spec fn quoted_char(c: char) -> Seq<char> {
    if c == '\'' {
        seq!['\'', '\\', '\'', '\'']
    } else {
        seq![c]
    }
}

/// The characters of `p` from `start` on, each as `quoted_char`.
pub open spec fn quoted_from(p: Seq<char>, start: int) -> Seq<char>
    decreases p.len() - start,
{
    if start < 0 || start >= p.len() {
        Seq::empty()
    } else {
        quoted_char(p[start]) + quoted_from(p, start + 1)
    }
}

proof fn lemma_quoted_from_plain(p: Seq<char>, start: int, end: int)
    requires
        0 <= start <= end <= p.len(),
        forall|j: int| start <= j < end ==> p[j] != '\'',
    ensures
        quoted_from(p, start) == p.subrange(start, end) + quoted_from(p, end),
    decreases end - start,
{
    if start < end {
        lemma_quoted_from_plain(p, start + 1, end);
        assert(p.subrange(start, end) =~= seq![p[start]] + p.subrange(start + 1, end));
    } else {
        assert(p.subrange(start, end) =~= Seq::<char>::empty());
    }
}

proof fn lemma_join_prepend(a: Seq<char>, rest: Seq<Seq<char>>, sep: Seq<char>)
    requires
        rest.len() > 0,
    ensures
        join(seq![a] + rest, sep) == a + sep + join(rest, sep),
    decreases rest.len(),
{
    let all = seq![a] + rest;
    assert(all.len() >= 2);
    if rest.len() == 1 {
        assert(all.drop_last() =~= seq![a]);
        assert(join(seq![a], sep) == a);
        assert(all.last() == rest[0]);
        assert(join(rest, sep) == rest[0]);
        assert(join(all, sep) == join(all.drop_last(), sep) + sep + all.last());
    } else {
        lemma_join_prepend(a, rest.drop_last(), sep);
        assert(all.drop_last() =~= seq![a] + rest.drop_last());
        assert(all.last() == rest.last());
        assert(join(all, sep) == join(all.drop_last(), sep) + sep + all.last());
        assert(join(rest, sep) == join(rest.drop_last(), sep) + sep + rest.last());
        assert(a + sep + join(rest.drop_last(), sep) + sep + rest.last() =~= a + sep + (join(
            rest.drop_last(),
            sep,
        ) + sep + rest.last()));
    }
}

proof fn lemma_replace_quotes_from(p: Seq<char>, start: int)
    requires
        0 <= start <= p.len(),
    ensures
        join(split_from(p, seq!['\''], start), seq!['\'', '\\', '\'', '\'']) == quoted_from(p, start),
    decreases p.len() + 1 - start,
{
    let q = seq!['\''];
    let x = seq!['\'', '\\', '\'', '\''];
    lemma_find_from_bounds(p, q, start);
    let k = find_from(p, q, start);
    assert forall|j: int| start <= j < p.len() && (k == -1 || j < k) implies p[j] != '\'' by {
        if p[j] == '\'' {
            assert(p.subrange(j, j + 1) =~= q);
            assert(matches_at(p, q, j));
        }
    }
    if k < start {
        lemma_quoted_from_plain(p, start, p.len() as int);
        assert(quoted_from(p, p.len() as int) =~= Seq::<char>::empty());
        assert(p.subrange(start, p.len() as int) + Seq::<char>::empty() =~= p.subrange(
            start,
            p.len() as int,
        ));
    } else {
        assert(p.subrange(k, k + 1) == q);
        assert(p[k] == p.subrange(k, k + 1)[0]);
        lemma_quoted_from_plain(p, start, k);
        lemma_replace_quotes_from(p, k + 1);
        crate::text::lemma_split_from_nonempty(p, q, k + 1);
        lemma_join_prepend(p.subrange(start, k), split_from(p, q, k + 1), x);
        assert(quoted_from(p, k) == x + quoted_from(p, k + 1));
    }
}

/// Replacing every single quote is quoting character by character.
proof fn lemma_replace_quotes(p: Seq<char>)
    ensures
        replace_all(p, seq!['\''], seq!['\'', '\\', '\'', '\'']) == quoted_from(p, 0),
{
    lemma_replace_quotes_from(p, 0);
}

/// Where a POSIX shell is while reading words made of plain characters,
/// single quotes, backslashes and spaces.
pub enum ShellRead {
    /// Between words.
    Between,
    /// Inside a word, outside quotes.
    Word(Seq<char>),
    /// Inside single quotes.
    Quoted(Seq<char>),
    /// Right after a backslash outside quotes.
    Escaped(Seq<char>),
}

/// One character read: the word it completes, if any, and the next state.
/// Inside single quotes every character but the closing quote is literal;
/// outside them a backslash takes the next character literally and a space
/// ends the word.
pub open spec fn shell_step(st: ShellRead, c: char) -> (Option<Seq<char>>, ShellRead) {
    match st {
        ShellRead::Quoted(w) => if c == '\'' {
            (None, ShellRead::Word(w))
        } else {
            (None, ShellRead::Quoted(w.push(c)))
        },
        ShellRead::Escaped(w) => (None, ShellRead::Word(w.push(c))),
        ShellRead::Between => if c == ' ' {
            (None, ShellRead::Between)
        } else if c == '\'' {
            (None, ShellRead::Quoted(Seq::empty()))
        } else if c == '\\' {
            (None, ShellRead::Escaped(Seq::empty()))
        } else {
            (None, ShellRead::Word(seq![c]))
        },
        ShellRead::Word(w) => if c == ' ' {
            (Some(w), ShellRead::Between)
        } else if c == '\'' {
            (None, ShellRead::Quoted(w))
        } else if c == '\\' {
            (None, ShellRead::Escaped(w))
        } else {
            (None, ShellRead::Word(w.push(c)))
        },
    }
}

/// The words completed and the state reached after reading `s` from `st`.
pub open spec fn shell_run(st: ShellRead, s: Seq<char>) -> (Seq<Seq<char>>, ShellRead)
    decreases s.len(),
{
    if s.len() == 0 {
        (Seq::empty(), st)
    } else {
        let (words, mid) = shell_run(st, s.drop_last());
        let (done, next) = shell_step(mid, s.last());
        (
            match done {
                Some(w) => words.push(w),
                None => words,
            },
            next,
        )
    }
}

/// The words a shell reads from a whole text (an unfinished word counts).
pub open spec fn shell_words(s: Seq<char>) -> Seq<Seq<char>> {
    let (words, end) = shell_run(ShellRead::Between, s);
    match end {
        ShellRead::Word(w) => words.push(w),
        _ => words,
    }
}

proof fn lemma_shell_run_append(st: ShellRead, a: Seq<char>, b: Seq<char>)
    ensures
        shell_run(st, a + b) == (shell_run(st, a).0 + shell_run(shell_run(st, a).1, b).0, shell_run(
            shell_run(st, a).1,
            b,
        ).1),
    decreases b.len(),
{
    if b.len() == 0 {
        assert(a + b =~= a);
    } else {
        lemma_shell_run_append(st, a, b.drop_last());
        assert((a + b).drop_last() =~= a + b.drop_last());
        assert((a + b).last() == b.last());
        let mid = shell_run(shell_run(st, a).1, b.drop_last());
        let (done, next) = shell_step(mid.1, b.last());
        match done {
            Some(w) => {
                assert(shell_run(st, a).0 + mid.0.push(w) =~= (shell_run(st, a).0 + mid.0).push(w));
            },
            None => {},
        }
    }
}

proof fn lemma_shell_run_push(st: ShellRead, s: Seq<char>, c: char)
    ensures
        shell_run(st, s.push(c)) == ({
            let (words, mid) = shell_run(st, s);
            let (done, next) = shell_step(mid, c);
            (
                match done {
                    Some(w) => words.push(w),
                    None => words,
                },
                next,
            )
        }),
{
    assert(s.push(c).drop_last() =~= s);
    assert(s.push(c).last() == c);
}

/// Reading the quoted form of `p` inside single quotes adds `p` to the
/// word and stays inside the quotes.
proof fn lemma_read_quoted(w: Seq<char>, p: Seq<char>, start: int)
    requires
        0 <= start <= p.len(),
    ensures
        shell_run(ShellRead::Quoted(w), quoted_from(p, start)) == (
            Seq::<Seq<char>>::empty(),
            ShellRead::Quoted(w + p.subrange(start, p.len() as int)),
        ),
    decreases p.len() - start,
{
    if start == p.len() {
        assert(quoted_from(p, start) =~= Seq::<char>::empty());
        assert(w + p.subrange(start, p.len() as int) =~= w);
    } else {
        let c = p[start];
        let piece = quoted_char(c);
        let w1 = w.push(c);
        lemma_read_quoted(w1, p, start + 1);
        lemma_shell_run_append(ShellRead::Quoted(w), piece, quoted_from(p, start + 1));
        let e = Seq::<char>::empty();
        assert(shell_run(ShellRead::Quoted(w), e) == (Seq::<Seq<char>>::empty(), ShellRead::Quoted(w)));
        if c == '\'' {
            lemma_shell_run_push(ShellRead::Quoted(w), e, '\'');
            lemma_shell_run_push(ShellRead::Quoted(w), e.push('\''), '\\');
            lemma_shell_run_push(ShellRead::Quoted(w), e.push('\'').push('\\'), '\'');
            lemma_shell_run_push(ShellRead::Quoted(w), e.push('\'').push('\\').push('\''), '\'');
            assert(piece =~= e.push('\'').push('\\').push('\'').push('\''));
        } else {
            lemma_shell_run_push(ShellRead::Quoted(w), e, c);
            assert(piece =~= e.push(c));
        }
        assert(Seq::<Seq<char>>::empty() + Seq::<Seq<char>>::empty() =~= Seq::<Seq<char>>::empty());
        assert(w1 + p.subrange(start + 1, p.len() as int) =~= w + p.subrange(start, p.len() as int));
        assert(quoted_from(p, start) == piece + quoted_from(p, start + 1));
    }
}

/// A shell-escaped path read from between words is one unfinished word:
/// the path itself.
proof fn lemma_read_escaped(p: Seq<char>)
    ensures
        shell_run(ShellRead::Between, shell_escape_spec(p)) == (
            Seq::<Seq<char>>::empty(),
            ShellRead::Word(p),
        ),
{
    lemma_replace_quotes(p);
    let body = quoted_from(p, 0);
    let open = seq!['\''];
    lemma_read_quoted(Seq::empty(), p, 0);
    assert(Seq::<char>::empty() + p.subrange(0, p.len() as int) =~= p);
    let e = Seq::<char>::empty();
    assert(open =~= e.push('\''));
    lemma_shell_run_push(ShellRead::Between, e, '\'');
    lemma_shell_run_push(ShellRead::Quoted(p), e, '\'');
    lemma_shell_run_append(ShellRead::Between, open, body);
    lemma_shell_run_append(ShellRead::Between, open + body, open);
    assert(Seq::<Seq<char>>::empty() + Seq::<Seq<char>>::empty() =~= Seq::<Seq<char>>::empty());
    assert(shell_escape_spec(p) == open + body + open);
}

proof fn lemma_read_rendered(paths: Seq<Seq<char>>)
    requires
        paths.len() > 0,
    ensures
        shell_run(ShellRead::Between, render_paths_spec(paths)) == (
            paths.drop_last(),
            ShellRead::Word(paths.last()),
        ),
    decreases paths.len(),
{
    let f = |p: Seq<char>| shell_escape_spec(p);
    let escaped = paths.map_values(f);
    lemma_read_escaped(paths.last());
    if paths.len() == 1 {
        assert(render_paths_spec(paths) == escaped[0]);
        assert(paths.drop_last() =~= Seq::<Seq<char>>::empty());
    } else {
        let init = paths.drop_last();
        lemma_read_rendered(init);
        assert(escaped.drop_last() =~= init.map_values(f));
        let before = render_paths_spec(init);
        let sp = seq![' '];
        assert(render_paths_spec(paths) == before + sp + f(paths.last()));
        lemma_shell_run_append(ShellRead::Between, before, sp);
        assert(sp =~= Seq::<char>::empty().push(' '));
        lemma_shell_run_push(ShellRead::Word(init.last()), Seq::<char>::empty(), ' ');
        assert(Seq::<Seq<char>>::empty().push(init.last()) =~= seq![init.last()]);
        lemma_shell_run_append(ShellRead::Between, before + sp, f(paths.last()));
        assert(init.drop_last() + seq![init.last()] =~= init);
        assert(init + Seq::<Seq<char>>::empty() =~= init);
        assert(init =~= paths.drop_last());
    }
}

/// The rendered `{{paths}}` value is read by a shell as exactly the changed
/// paths, one argument each, whatever characters they hold.
pub proof fn law_rendered_paths_read_back(paths: Seq<Seq<char>>)
    ensures
        shell_words(render_paths_spec(paths)) == paths,
{
    if paths.len() == 0 {
        assert(render_paths_spec(paths) =~= Seq::<char>::empty());
        assert(paths =~= Seq::<Seq<char>>::empty());
    } else {
        lemma_read_rendered(paths);
        assert(paths.drop_last().push(paths.last()) =~= paths);
    }
}

} // verus!
