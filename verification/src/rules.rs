//! User-facing task model: one configured task with its commands,
//! watch/ignore patterns and init behavior, plus glob matching semantics,
//! validation and task-level presentation.
use std::collections::BTreeMap;
use vstd::prelude::*;

use crate::text::{
    clone_strings, extend_strings, from_chars, join, join_strings, owned, starts_with,
    starts_with_exec, to_chars, trim_start_matches, trim_start_matches_exec, views,
};

verus! {

// ---------------------------------------------------------------------------
// Glob patterns (the `glob` crate)
// ---------------------------------------------------------------------------

/// Declares `glob::Pattern`, a compiled glob; nothing is claimed of its
/// contents.
#[verifier::external_type_specification]
#[verifier::external_body]
pub struct ExGlobPattern(glob::Pattern);

/// `glob::Pattern::new` accepts `pattern`.
pub uninterp spec fn glob_valid(pattern: Seq<char>) -> bool;

/// The compiled `pattern` matches `path` (`glob::Pattern::matches`).
pub uninterp spec fn glob_matches(pattern: Seq<char>, path: Seq<char>) -> bool;

/// The `Display` text of the error `glob::Pattern::new` reports for
/// `pattern`.
pub uninterp spec fn glob_error_text(pattern: Seq<char>) -> Seq<char>;

/// A compiled glob pattern together with the text it was compiled from.
pub struct GlobPattern {
    source: String,
    compiled: glob::Pattern,
}

impl View for GlobPattern {
    type V = Seq<char>;

    closed spec fn view(&self) -> Seq<char> {
        self.source@
    }
}

/// Compiles `source` with `glob::Pattern::new`. The contract claims that
/// compilation succeeds exactly for the patterns named valid, that a
/// compiled pattern keeps its source text, and that a failure carries the
/// error's display text.
#[verifier::external_body]
pub(crate) fn compile_glob(source: &str) -> (r: Result<GlobPattern, String>)
    ensures
        r is Ok <==> glob_valid(source@),
        r matches Ok(p) ==> p@ == source@,
        r matches Err(e) ==> e@ == glob_error_text(source@),
{
    match glob::Pattern::new(source) {
        Ok(compiled) => Ok(GlobPattern { source: source.to_string(), compiled }),
        Err(error) => Err(error.to_string()),
    }
}

/// Matches `path` against a compiled pattern with
/// `glob::Pattern::matches`; the contract claims the answer is the one named
/// for the pattern's source text and the path.
#[verifier::external_body]
pub(crate) fn glob_match(pattern: &GlobPattern, path: &str) -> (r: bool)
    ensures
        r == glob_matches(pattern@, path@),
{
    pattern.compiled.matches(path)
}

/// The pattern text compiled for a watch/ignore pattern: kept as written
/// when anchored, otherwise prefixed with `**`.
pub open spec fn compiled_source(pattern: Seq<char>, anchored: bool) -> Seq<char> {
    if anchored {
        pattern
    } else {
        "**"@ + pattern
    }
}

/// Compiles a watch/ignore pattern; an invalid pattern is a programming
/// error of the caller (the rules were validated first).
fn create_pattern(pattern: &str, anchored: bool) -> (r: GlobPattern)
    requires
        glob_valid(compiled_source(pattern@, anchored)),
    ensures
        r@ == compiled_source(pattern@, anchored),
{
    let mut source = String::new();
    if !anchored {
        source.append("**");
    }
    source.append(pattern);
    assert(source@ =~= compiled_source(pattern@, anchored));
    let compiled = compile_glob(source.as_str());
    assert(compiled is Ok);
    compiled.unwrap()
}

fn anchored_pattern(pattern: &str) -> (r: GlobPattern)
    requires
        glob_valid(pattern@),
    ensures
        r@ == pattern@,
{
    create_pattern(pattern, true)
}

// ---------------------------------------------------------------------------
// Matching model
// ---------------------------------------------------------------------------

/// A path with a leading `/` added when it has none.
pub open spec fn normalize_path(path: Seq<char>) -> Seq<char> {
    if starts_with(path, "/"@) {
        path
    } else {
        "/"@ + path
    }
}

/// The anchored pattern compiled for a relative pattern: `./` prefixes
/// removed and a leading `/` added.
pub open spec fn relative_source(pattern: Seq<char>) -> Seq<char> {
    "/"@ + trim_start_matches(pattern, "./"@)
}

/// Patterns that begin with `/`.
pub open spec fn absolute_of(patterns: Seq<Seq<char>>) -> Seq<Seq<char>> {
    patterns.filter(|p: Seq<char>| starts_with(p, "/"@))
}

/// Patterns that do not begin with `/`.
pub open spec fn relative_of(patterns: Seq<Seq<char>>) -> Seq<Seq<char>> {
    patterns.filter(|p: Seq<char>| !starts_with(p, "/"@))
}

/// Some of the compiled sources matches `path`.
pub open spec fn any_matches(sources: Seq<Seq<char>>, path: Seq<char>) -> bool {
    exists|i: int| 0 <= i < sources.len() && glob_matches(#[trigger] sources[i], path)
}

/// Scanning the sources in order until one matches never compiles an
/// invalid pattern.
pub open spec fn scan_safe(sources: Seq<Seq<char>>, path: Seq<char>) -> bool {
    forall|i: int|
        0 <= i < sources.len() && (forall|j: int| 0 <= j < i ==> !glob_matches(sources[j], path))
            ==> glob_valid(#[trigger] sources[i])
}

/// Compiled sources for relative patterns.
pub open spec fn relative_sources(patterns: Seq<Seq<char>>) -> Seq<Seq<char>> {
    relative_of(patterns).map_values(|p: Seq<char>| relative_source(p))
}

/// Mathematical model of [`Rules`].
pub struct RulesView {
    pub name: Seq<char>,
    pub commands: Seq<Seq<char>>,
    pub argv: Option<Seq<Seq<char>>>,
    pub watches: Seq<Seq<char>>,
    pub ignores: Seq<Seq<char>>,
    pub run_on_init: bool,
    pub parallel: Option<Seq<char>>,
    pub cwd: Option<Seq<char>>,
    pub environment: Map<String, String>,
}

/// A relative watch pattern matches the path.
pub open spec fn watch_relative_spec(r: RulesView, path: Seq<char>) -> bool {
    any_matches(relative_sources(r.watches), normalize_path(path))
}

/// An absolute watch pattern matches the path.
pub open spec fn watch_absolute_spec(r: RulesView, path: Seq<char>) -> bool {
    any_matches(absolute_of(r.watches), path)
}

pub open spec fn watch_spec(r: RulesView, path: Seq<char>) -> bool {
    watch_relative_spec(r, path) || watch_absolute_spec(r, path)
}

pub open spec fn ignore_relative_spec(r: RulesView, path: Seq<char>) -> bool {
    any_matches(relative_sources(r.ignores), normalize_path(path))
}

pub open spec fn ignore_absolute_spec(r: RulesView, path: Seq<char>) -> bool {
    any_matches(absolute_of(r.ignores), path)
}

pub open spec fn ignore_spec(r: RulesView, path: Seq<char>) -> bool {
    ignore_relative_spec(r, path) || ignore_absolute_spec(r, path)
}

/// Deciding `watch` compiles only valid patterns.
pub open spec fn watch_safe(r: RulesView, path: Seq<char>) -> bool {
    &&& scan_safe(relative_sources(r.watches), normalize_path(path))
    &&& !watch_relative_spec(r, path) ==> scan_safe(absolute_of(r.watches), path)
}

/// Deciding `ignore` compiles only valid patterns.
pub open spec fn ignore_safe(r: RulesView, path: Seq<char>) -> bool {
    &&& scan_safe(relative_sources(r.ignores), normalize_path(path))
    &&& !ignore_relative_spec(r, path) ==> scan_safe(absolute_of(r.ignores), path)
}

/// Display commands: the argv joined by spaces for `exec` rules, otherwise
/// the configured shell commands.
pub open spec fn commands_spec(r: RulesView) -> Seq<Seq<char>> {
    match r.argv {
        Some(a) => seq![join(a, " "@)],
        None => r.commands,
    }
}

/// Execution command lines of a rule.
pub open spec fn command_lines_spec(r: RulesView) -> Seq<CommandSpec> {
    match r.argv {
        Some(a) => seq![CommandSpec::Argv(a)],
        None => r.commands.map_values(|c: Seq<char>| CommandSpec::Shell(c)),
    }
}

/// The name shown in validation errors.
pub open spec fn display_name(r: RulesView) -> Seq<char> {
    if r.name.len() == 0 {
        "_unnamed_"@
    } else {
        r.name
    }
}

pub open spec fn read_more() -> Seq<char> {
    "\n  Read more: https://en.wikipedia.org/wiki/Glob_(programming)"@
}

/// The error for the first invalid pattern of `patterns` (`kind` is
/// `change` or `ignore`), if any.
pub open spec fn first_invalid_error(
    name: Seq<char>,
    kind: Seq<char>,
    patterns: Seq<Seq<char>>,
) -> Option<Seq<char>>
    decreases patterns.len(),
{
    if patterns.len() == 0 {
        None
    } else if !glob_valid(patterns[0]) {
        Some(
            "Rule '"@ + name + "' contains an invalid `"@ + kind + "` glob pattern '"@ + patterns[0]
                + "'.\n  "@ + glob_error_text(patterns[0]) + read_more(),
        )
    } else {
        first_invalid_error(name, kind, patterns.drop_first())
    }
}

/// Outcome of rule validation.
pub open spec fn validate_spec(r: RulesView) -> Result<(), Seq<char>> {
    let name = display_name(r);
    if command_lines_spec(r).len() == 0 {
        Err("Rule '"@ + name + "' contains no command to run. Empty 'run' property."@)
    } else if r.watches.len() == 0 && !r.run_on_init {
        Err("Rule '"@ + name + "' must contain a `change` and/or `run_on_init` property."@)
    } else {
        match first_invalid_error(name, "change"@, r.watches) {
            Some(e) => Err(e),
            None => match first_invalid_error(name, "ignore"@, r.ignores) {
                Some(e) => Err(e),
                None => Ok(()),
            },
        }
    }
}

// ---------------------------------------------------------------------------
// Command lines
// ---------------------------------------------------------------------------

/// One command selected for execution: either a configured shell command
/// string or an exact argv vector from ad-hoc `exec` mode.
#[derive(Debug, Clone, PartialEq, Eq)]
pub enum CommandLine {
    /// Configured task command, run through the user's shell (`$SHELL -c`).
    Shell(String),
    /// Ad-hoc `exec` command: program plus arguments, spawned directly
    /// without joining or re-parsing through a shell.
    Argv(Vec<String>),
}

/// Mathematical model of a [`CommandLine`].
pub enum CommandSpec {
    Shell(Seq<char>),
    Argv(Seq<Seq<char>>),
}

impl View for CommandLine {
    type V = CommandSpec;

    open spec fn view(&self) -> CommandSpec {
        match self {
            CommandLine::Shell(c) => CommandSpec::Shell(c@),
            CommandLine::Argv(a) => CommandSpec::Argv(views(a@)),
        }
    }
}

/// The models of a sequence of command lines.
pub open spec fn line_views(v: Seq<CommandLine>) -> Seq<CommandSpec> {
    v.map_values(|c: CommandLine| c@)
}

/// Human-readable form of a command line.
pub open spec fn display_spec(c: CommandSpec) -> Seq<char> {
    match c {
        CommandSpec::Shell(s) => s,
        CommandSpec::Argv(a) => join(a, " "@),
    }
}

impl CommandLine {
    /// Human-readable form used in logs, control payloads, and summaries.
    pub fn display(&self) -> (r: String)
        ensures
            r@ == display_spec(self@),
    {
        match self {
            CommandLine::Shell(command) => command.clone(),
            CommandLine::Argv(argv) => join_strings(argv, " "),
        }
    }

    /// A copy of this command line.
    pub fn duplicate(&self) -> (r: CommandLine)
        ensures
            r@ == self@,
    {
        match self {
            CommandLine::Shell(command) => CommandLine::Shell(command.clone()),
            CommandLine::Argv(argv) => CommandLine::Argv(clone_strings(argv)),
        }
    }
}

/// A copy of every command line, in order.
pub fn clone_lines(v: &Vec<CommandLine>) -> (r: Vec<CommandLine>)
    ensures
        line_views(r@) == line_views(v@),
{
    let mut out: Vec<CommandLine> = Vec::new();
    let mut i: usize = 0;
    while i < v.len()
        invariant
            i <= v@.len(),
            out@.len() == i,
            forall|k: int| 0 <= k < i ==> (#[trigger] out@[k])@ == v@[k]@,
        decreases v@.len() - i,
    {
        out.push(v[i].duplicate());
        i = i + 1;
    }
    assert(line_views(out@) =~= line_views(v@));
    out
}

// ---------------------------------------------------------------------------
// Rules
// ---------------------------------------------------------------------------

#[derive(Debug, Clone, PartialEq, Eq)]
pub struct Rules {
    pub name: String,
    commands: Vec<String>,
    /// When present, the rule is an ad-hoc `exec` command: this exact argv
    /// is spawned directly without a shell. Mutually exclusive with
    /// `commands` (an argv rule has no shell command list).
    argv: Option<Vec<String>>,
    watch_patterns: Vec<String>,
    ignore_patterns: Vec<String>,
    run_on_init: bool,
    /// Named `parallel` group the task belongs to, if any.
    parallel: Option<String>,
    /// Working directory relative to the workspace root, if configured.
    cwd: Option<String>,
    /// Environment applied to the task's child commands.
    environment: BTreeMap<String, String>,
}

pub open spec fn opt_view(o: Option<String>) -> Option<Seq<char>> {
    match o {
        Some(s) => Some(s@),
        None => None,
    }
}

pub open spec fn opt_views(o: Option<Vec<String>>) -> Option<Seq<Seq<char>>> {
    match o {
        Some(v) => Some(views(v@)),
        None => None,
    }
}

impl View for Rules {
    type V = RulesView;

    closed spec fn view(&self) -> RulesView {
        RulesView {
            name: self.name@,
            commands: views(self.commands@),
            argv: opt_views(self.argv),
            watches: views(self.watch_patterns@),
            ignores: views(self.ignore_patterns@),
            run_on_init: self.run_on_init,
            parallel: opt_view(self.parallel),
            cwd: opt_view(self.cwd),
            environment: self.environment@,
        }
    }
}

fn clone_opt_string(o: &Option<String>) -> (r: Option<String>)
    ensures
        opt_view(r) == opt_view(*o),
{
    match o {
        Some(s) => Some(s.clone()),
        None => None,
    }
}

/// Copies the patterns that begin with `/` (when `absolute`) or that do not.
fn filter_by_root(patterns: &Vec<String>, absolute: bool) -> (r: Vec<String>)
    ensures
        views(r@) == (if absolute {
            absolute_of(views(patterns@))
        } else {
            relative_of(views(patterns@))
        }),
{
    let slash = to_chars("/");
    proof {
        reveal_strlit("/");
    }
    let ghost vs = views(patterns@);
    let ghost pred = |p: Seq<char>|
        if absolute {
            starts_with(p, "/"@)
        } else {
            !starts_with(p, "/"@)
        };
    let mut out: Vec<String> = Vec::new();
    let mut i: usize = 0;
    while i < patterns.len()
        invariant
            i <= patterns@.len(),
            vs == views(patterns@),
            slash@ == "/"@,
            pred == (|p: Seq<char>|
                if absolute {
                    starts_with(p, "/"@)
                } else {
                    !starts_with(p, "/"@)
                }),
            views(out@) == vs.take(i as int).filter(pred),
        decreases patterns@.len() - i,
    {
        let p = to_chars(patterns[i].as_str());
        let s = starts_with_exec(&p, &slash);
        if s == absolute {
            out.push(patterns[i].clone());
        }
        proof {
            let t = vs.take(i + 1);
            assert(t.drop_last() =~= vs.take(i as int));
            assert(t.last() == vs[i as int]);
            reveal(Seq::filter);
            assert(views(out@) =~= t.filter(pred));
        }
        i = i + 1;
    }
    proof {
        assert(vs.take(patterns@.len() as int) =~= vs);
        if absolute {
            assert(pred =~= (|p: Seq<char>| starts_with(p, "/"@)));
        } else {
            assert(pred =~= (|p: Seq<char>| !starts_with(p, "/"@)));
        }
    }
    out
}

/// The anchored source compiled for a relative pattern.
fn relative_source_exec(pattern: &str) -> (r: String)
    ensures
        r@ == relative_source(pattern@),
{
    let p = to_chars(pattern);
    let dot = to_chars("./");
    let trimmed = trim_start_matches_exec(&p, &dot);
    let mut source = String::new();
    source.append("/");
    let t = from_chars(&trimmed);
    source.append(t.as_str());
    assert(source@ =~= relative_source(pattern@));
    source
}

/// Whether `path` (already normalized) begins with `/`, adding one if not.
fn normalize_path_exec(path: &str) -> (r: String)
    ensures
        r@ == normalize_path(path@),
{
    let p = to_chars(path);
    let slash = to_chars("/");
    if starts_with_exec(&p, &slash) {
        owned(path)
    } else {
        let mut s = String::new();
        s.append("/");
        s.append(path);
        s
    }
}

/// The compiled sources of a list of relative patterns.
fn relative_sources_exec(relative: &Vec<String>) -> (r: Vec<String>)
    ensures
        views(r@) == views(relative@).map_values(|p: Seq<char>| relative_source(p)),
{
    let mut out: Vec<String> = Vec::new();
    let mut i: usize = 0;
    while i < relative.len()
        invariant
            i <= relative@.len(),
            out@.len() == i,
            forall|k: int| 0 <= k < i ==> (#[trigger] out@[k])@ == relative_source(relative@[k]@),
        decreases relative@.len() - i,
    {
        out.push(relative_source_exec(relative[i].as_str()));
        i = i + 1;
    }
    assert(views(out@) =~= views(relative@).map_values(|p: Seq<char>| relative_source(p)));
    out
}

/// Matches `path` against the sources in order, stopping at the first
/// match; `None` when a pattern met before any match does not compile.
fn scan_checked(sources: &Vec<String>, path: &str) -> (r: Option<bool>)
    ensures
        r is Some <==> scan_safe(views(sources@), path@),
        r matches Some(b) ==> b == any_matches(views(sources@), path@),
{
    let ghost vs = views(sources@);
    let mut i: usize = 0;
    while i < sources.len()
        invariant
            i <= sources@.len(),
            vs == views(sources@),
            forall|j: int| 0 <= j < i ==> !glob_matches(#[trigger] vs[j], path@),
            forall|j: int| 0 <= j < i ==> glob_valid(#[trigger] vs[j]),
        decreases sources@.len() - i,
    {
        match compile_glob(sources[i].as_str()) {
            Ok(p) => {
                if glob_match(&p, path) {
                    assert(glob_matches(vs[i as int], path@));
                    proof {
                        if !scan_safe(vs, path@) {
                            let k = choose|k: int|
                                !(0 <= k < vs.len() && (forall|j: int|
                                    0 <= j < k ==> !glob_matches(vs[j], path@)) ==> glob_valid(
                                    #[trigger] vs[k],
                                ));
                            if k > i {
                                assert(!glob_matches(vs[i as int], path@));
                            }
                        }
                    }
                    return Some(true);
                }
            },
            Err(_) => {
                assert(!scan_safe(vs, path@)) by {
                    assert(!glob_valid(vs[i as int]));
                }
                return None;
            },
        }
        i = i + 1;
    }
    assert(scan_safe(vs, path@));
    Some(false)
}

/// Matches `path` against the sources in order, stopping at the first
/// match.
fn scan(sources: &Vec<String>, path: &str) -> (r: bool)
    requires
        scan_safe(views(sources@), path@),
    ensures
        r == any_matches(views(sources@), path@),
{
    let ghost vs = views(sources@);
    let mut i: usize = 0;
    while i < sources.len()
        invariant
            i <= sources@.len(),
            vs == views(sources@),
            scan_safe(vs, path@),
            forall|j: int| 0 <= j < i ==> !glob_matches(#[trigger] vs[j], path@),
        decreases sources@.len() - i,
    {
        assert(glob_valid(vs[i as int]));
        let pattern = anchored_pattern(sources[i].as_str());
        if glob_match(&pattern, path) {
            return true;
        }
        i = i + 1;
    }
    false
}

impl Rules {
    pub fn new(
        name: String,
        commands: Vec<String>,
        watches: Vec<String>,
        ignores: Vec<String>,
        run_on_init: bool,
    ) -> (r: Self)
        ensures
            r@ == (RulesView {
                name: name@,
                commands: views(commands@),
                argv: None,
                watches: views(watches@),
                ignores: views(ignores@),
                run_on_init,
                parallel: None,
                cwd: None,
                environment: Map::empty(),
            }),
    {
        Rules {
            name,
            commands,
            argv: None,
            watch_patterns: watches,
            ignore_patterns: ignores,
            run_on_init,
            parallel: None,
            cwd: None,
            environment: BTreeMap::new(),
        }
    }

    /// Creates an ad-hoc `exec` rule whose single command is an exact argv
    /// vector. The program and its arguments cross parser/runtime
    /// boundaries without being joined and re-parsed through a shell.
    pub fn from_argv(
        name: String,
        argv: Vec<String>,
        watches: Vec<String>,
        ignores: Vec<String>,
        run_on_init: bool,
    ) -> (r: Self)
        ensures
            r@ == (RulesView {
                name: name@,
                commands: Seq::empty(),
                argv: Some(views(argv@)),
                watches: views(watches@),
                ignores: views(ignores@),
                run_on_init,
                parallel: None,
                cwd: None,
                environment: Map::empty(),
            }),
    {
        let r = Rules {
            name,
            commands: Vec::new(),
            argv: Some(argv),
            watch_patterns: watches,
            ignore_patterns: ignores,
            run_on_init,
            parallel: None,
            cwd: None,
            environment: BTreeMap::new(),
        };
        assert(views(r.commands@) =~= Seq::empty());
        r
    }

    /// Places the task in a named `parallel` group.
    pub fn with_parallel(self, group: String) -> (r: Self)
        ensures
            r@ == (RulesView { parallel: Some(group@), ..self@ }),
    {
        Rules { parallel: Some(group), ..self }
    }

    /// Sets the task's working directory and child environment.
    pub fn with_execution_context(
        self,
        cwd: Option<String>,
        environment: BTreeMap<String, String>,
    ) -> (r: Self)
        ensures
            r@ == (RulesView { cwd: opt_view(cwd), environment: environment@, ..self@ }),
    {
        Rules { cwd, environment, ..self }
    }

    /// The configured task name.
    pub fn task_name(&self) -> (r: String)
        ensures
            r@ == self@.name,
    {
        self.name.clone()
    }

    /// The named `parallel` group, if any.
    pub fn parallel(&self) -> (r: Option<String>)
        ensures
            opt_view(r) == self@.parallel,
    {
        clone_opt_string(&self.parallel)
    }

    /// The configured working directory, if any.
    pub fn cwd(&self) -> (r: Option<String>)
        ensures
            opt_view(r) == self@.cwd,
    {
        clone_opt_string(&self.cwd)
    }

    /// The child environment.
    pub fn environment(&self) -> (r: BTreeMap<String, String>)
        ensures
            r@ == self@.environment,
    {
        self.environment.clone()
    }

    /// A copy of this rule.
    pub fn duplicate(&self) -> (r: Self)
        ensures
            r@ == self@,
    {
        Rules {
            name: self.name.clone(),
            commands: clone_strings(&self.commands),
            argv: match &self.argv {
                Some(a) => Some(clone_strings(a)),
                None => None,
            },
            watch_patterns: clone_strings(&self.watch_patterns),
            ignore_patterns: clone_strings(&self.ignore_patterns),
            run_on_init: self.run_on_init,
            parallel: clone_opt_string(&self.parallel),
            cwd: clone_opt_string(&self.cwd),
            environment: self.environment.clone(),
        }
    }

    pub fn watch(&self, path: &str) -> (r: bool)
        requires
            watch_safe(self@, path@),
        ensures
            r == watch_spec(self@, path@),
    {
        self.watch_relative(path) || self.watch_absolute(path)
    }

    pub fn watch_relative(&self, path: &str) -> (r: bool)
        requires
            scan_safe(relative_sources(self@.watches), normalize_path(path@)),
        ensures
            r == watch_relative_spec(self@, path@),
    {
        let normalized_path = normalize_path_exec(path);
        let relative = self.watch_relative_paths();
        let sources = relative_sources_exec(&relative);
        scan(&sources, normalized_path.as_str())
    }

    pub fn watch_absolute(&self, path: &str) -> (r: bool)
        requires
            scan_safe(absolute_of(self@.watches), path@),
        ensures
            r == watch_absolute_spec(self@, path@),
    {
        let absolute = self.watch_absolute_paths();
        scan(&absolute, path)
    }

    /// `watch` for any patterns: `None` when deciding it would compile an
    /// invalid pattern.
    pub fn try_watch(&self, path: &str) -> (r: Option<bool>)
        ensures
            r is Some <==> watch_safe(self@, path@),
            r matches Some(b) ==> b == watch_spec(self@, path@),
    {
        let normalized_path = normalize_path_exec(path);
        let relative = self.watch_relative_paths();
        let sources = relative_sources_exec(&relative);
        match scan_checked(&sources, normalized_path.as_str()) {
            None => None,
            Some(true) => Some(true),
            Some(false) => {
                let absolute = self.watch_absolute_paths();
                scan_checked(&absolute, path)
            },
        }
    }

    pub fn ignore(&self, path: &str) -> (r: bool)
        requires
            ignore_safe(self@, path@),
        ensures
            r == ignore_spec(self@, path@),
    {
        self.ignore_relative(path) || self.ignore_absolute(path)
    }

    pub fn ignore_relative(&self, path: &str) -> (r: bool)
        requires
            scan_safe(relative_sources(self@.ignores), normalize_path(path@)),
        ensures
            r == ignore_relative_spec(self@, path@),
    {
        let normalized_path = normalize_path_exec(path);
        let relative = filter_by_root(&self.ignore_patterns, false);
        let sources = relative_sources_exec(&relative);
        scan(&sources, normalized_path.as_str())
    }

    pub fn ignore_absolute(&self, path: &str) -> (r: bool)
        requires
            scan_safe(absolute_of(self@.ignores), path@),
        ensures
            r == ignore_absolute_spec(self@, path@),
    {
        let absolute = filter_by_root(&self.ignore_patterns, true);
        scan(&absolute, path)
    }

    /// `ignore` for any patterns: `None` when deciding it would compile an
    /// invalid pattern.
    pub fn try_ignore(&self, path: &str) -> (r: Option<bool>)
        ensures
            r is Some <==> ignore_safe(self@, path@),
            r matches Some(b) ==> b == ignore_spec(self@, path@),
    {
        let normalized_path = normalize_path_exec(path);
        let relative = filter_by_root(&self.ignore_patterns, false);
        let sources = relative_sources_exec(&relative);
        match scan_checked(&sources, normalized_path.as_str()) {
            None => None,
            Some(true) => Some(true),
            Some(false) => {
                let absolute = filter_by_root(&self.ignore_patterns, true);
                scan_checked(&absolute, path)
            },
        }
    }

    pub fn commands(&self) -> (r: Vec<String>)
        ensures
            views(r@) == commands_spec(self@),
    {
        match &self.argv {
            // Display/wire form for ad-hoc exec rules: the exact argv joined
            // for presentation. Execution uses `command_lines()` so argv is
            // never re-parsed through a shell.
            Some(argv) => {
                let r = vec![join_strings(argv, " ")];
                assert(views(r@) =~= commands_spec(self@));
                r
            },
            None => clone_strings(&self.commands),
        }
    }

    /// Returns the exact argv for ad-hoc `exec` rules, or `None` for
    /// configured shell-command rules.
    pub fn argv(&self) -> (r: Option<Vec<String>>)
        ensures
            opt_views(r) == self@.argv,
    {
        match &self.argv {
            Some(a) => Some(clone_strings(a)),
            None => None,
        }
    }

    /// Returns the commands this rule executes: configured shell commands,
    /// or the single exact argv for ad-hoc `exec` rules.
    pub fn command_lines(&self) -> (r: Vec<CommandLine>)
        ensures
            line_views(r@) == command_lines_spec(self@),
    {
        match &self.argv {
            Some(argv) => {
                let r = vec![CommandLine::Argv(clone_strings(argv))];
                assert(line_views(r@) =~= command_lines_spec(self@));
                r
            },
            None => {
                let ghost cs = views(self.commands@);
                let mut out: Vec<CommandLine> = Vec::new();
                let mut i: usize = 0;
                while i < self.commands.len()
                    invariant
                        i <= self.commands@.len(),
                        cs == views(self.commands@),
                        out@.len() == i,
                        forall|k: int|
                            0 <= k < i ==> (#[trigger] out@[k])@ == CommandSpec::Shell(
                                self.commands@[k]@,
                            ),
                    decreases self.commands@.len() - i,
                {
                    out.push(CommandLine::Shell(self.commands[i].clone()));
                    i = i + 1;
                }
                assert(line_views(out@) =~= cs.map_values(|c: Seq<char>| CommandSpec::Shell(c)));
                out
            },
        }
    }

    pub fn watch_patterns(&self) -> (r: Vec<String>)
        ensures
            views(r@) == self@.watches,
    {
        clone_strings(&self.watch_patterns)
    }

    pub fn watch_glob_patterns(&self) -> (r: Vec<String>)
        ensures
            views(r@) == self@.watches,
    {
        clone_strings(&self.watch_patterns)
    }

    pub fn ignore_glob_patterns(&self) -> (r: Vec<String>)
        ensures
            views(r@) == self@.ignores,
    {
        clone_strings(&self.ignore_patterns)
    }

    pub fn run_on_init(&self) -> (r: bool)
        ensures
            r == self@.run_on_init,
    {
        self.run_on_init
    }

    pub fn watch_absolute_paths(&self) -> (r: Vec<String>)
        ensures
            views(r@) == absolute_of(self@.watches),
    {
        filter_by_root(&self.watch_patterns, true)
    }

    pub fn watch_relative_paths(&self) -> (r: Vec<String>)
        ensures
            views(r@) == relative_of(self@.watches),
    {
        filter_by_root(&self.watch_patterns, false)
    }
}


/// Concatenation of a sequence of sequences, in order.
pub open spec fn concat_all<A>(s: Seq<Seq<A>>) -> Seq<A>
    decreases s.len(),
{
    if s.len() == 0 {
        Seq::empty()
    } else {
        concat_all(s.drop_last()) + s.last()
    }
}

pub proof fn lemma_concat_all_push<A>(a: Seq<Seq<A>>, x: Seq<A>)
    ensures
        concat_all(a.push(x)) == concat_all(a) + x,
{
    assert(a.push(x).drop_last() =~= a);
}

pub proof fn lemma_concat_all_append<A>(a: Seq<Seq<A>>, b: Seq<Seq<A>>)
    ensures
        concat_all(a + b) == concat_all(a) + concat_all(b),
    decreases b.len(),
{
    if b.len() == 0 {
        assert(a + b =~= a);
        assert(concat_all(a) + concat_all(b) =~= concat_all(a));
    } else {
        lemma_concat_all_append(a, b.drop_last());
        assert((a + b).drop_last() =~= a + b.drop_last());
        assert((a + b).last() == b.last());
        assert(concat_all(a) + concat_all(b.drop_last()) + b.last() =~= concat_all(a) + (
        concat_all(b.drop_last()) + b.last()));
    }
}

/// The models of a sequence of rules.
pub open spec fn rules_views(v: Seq<Rules>) -> Seq<RulesView> {
    v.map_values(|r: Rules| r@)
}

/// One task's entry in the `available_targets` listing.
pub open spec fn target_entry(r: RulesView) -> Seq<char> {
    "  - "@ + r.name + "\n"@ + (if r.watches.len() > 0 {
        "    change: "@ + join(r.watches, ", "@) + "\n"@
    } else {
        Seq::empty()
    }) + (if r.run_on_init {
        "    run_on_init: true\n"@
    } else {
        Seq::empty()
    })
}

pub open spec fn available_targets_spec(rules: Seq<RulesView>) -> Seq<char> {
    if rules.len() == 0 {
        "Available tasks\n"@ + "  (none)\n"@
    } else {
        "Available tasks\n"@ + concat_all(rules.map_values(|r: RulesView| target_entry(r)))
    }
}

/// The first error among the rules' validations, if any.
pub open spec fn validate_all_spec(rules: Seq<RulesView>) -> Result<(), Seq<char>>
    decreases rules.len(),
{
    if rules.len() == 0 {
        Ok(())
    } else {
        match validate_spec(rules[0]) {
            Err(e) => Err(e),
            Ok(()) => validate_all_spec(rules.drop_first()),
        }
    }
}

pub open spec fn same_result(r: Result<(), String>, s: Result<(), Seq<char>>) -> bool {
    match (r, s) {
        (Ok(()), Ok(())) => true,
        (Err(e), Err(t)) => e@ == t,
        _ => false,
    }
}

/// The first invalid pattern's error message, if any pattern is invalid.
fn first_invalid(name: &str, kind: &str, patterns: &Vec<String>) -> (r: Option<String>)
    ensures
        opt_view(r) == first_invalid_error(name@, kind@, views(patterns@)),
{
    let ghost vs = views(patterns@);
    let mut i: usize = 0;
    assert(vs.skip(0) =~= vs);
    while i < patterns.len()
        invariant
            i <= patterns@.len(),
            vs == views(patterns@),
            first_invalid_error(name@, kind@, vs) == first_invalid_error(
                name@,
                kind@,
                vs.skip(i as int),
            ),
        decreases patterns@.len() - i,
    {
        proof {
            assert(vs.skip(i as int)[0] == vs[i as int]);
            assert(vs.skip(i as int).drop_first() =~= vs.skip(i + 1));
        }
        match compile_glob(patterns[i].as_str()) {
            Ok(_) => {},
            Err(err) => {
                let mut m = String::new();
                m.append("Rule '");
                m.append(name);
                m.append("' contains an invalid `");
                m.append(kind);
                m.append("` glob pattern '");
                m.append(patterns[i].as_str());
                m.append("'.\n  ");
                m.append(err.as_str());
                m.append("\n  Read more: https://en.wikipedia.org/wiki/Glob_(programming)");
                return Some(m);
            },
        }
        i = i + 1;
    }
    assert(vs.skip(patterns@.len() as int).len() == 0);
    None
}

impl Rules {
    pub fn validate(&self) -> (r: Result<(), String>)
        ensures
            same_result(r, validate_spec(self@)),
    {
        let name = if self.name.as_str().is_empty() {
            owned("_unnamed_")
        } else {
            self.name.clone()
        };
        if self.command_lines().len() == 0 {
            let mut m = String::new();
            m.append("Rule '");
            m.append(name.as_str());
            m.append("' contains no command to run. Empty 'run' property.");
            return Err(m);
        }
        if self.watch_patterns.len() == 0 && !self.run_on_init {
            let mut m = String::new();
            m.append("Rule '");
            m.append(name.as_str());
            m.append("' must contain a `change` and/or `run_on_init` property.");
            return Err(m);
        }
        match first_invalid(name.as_str(), "change", &self.watch_patterns) {
            Some(e) => return Err(e),
            None => {},
        }
        match first_invalid(name.as_str(), "ignore", &self.ignore_patterns) {
            Some(e) => return Err(e),
            None => {},
        }
        Ok(())
    }
}

/// Validates every rule, reporting the first error.
pub fn validate_rules(rule: &Vec<Rules>) -> (r: Result<(), String>)
    ensures
        same_result(r, validate_all_spec(rules_views(rule@))),
{
    let ghost rs = rules_views(rule@);
    let mut i: usize = 0;
    assert(rs.skip(0) =~= rs);
    while i < rule.len()
        invariant
            i <= rule@.len(),
            rs == rules_views(rule@),
            validate_all_spec(rs) == validate_all_spec(rs.skip(i as int)),
        decreases rule@.len() - i,
    {
        proof {
            assert(rs.skip(i as int)[0] == rs[i as int]);
            assert(rs.skip(i as int).drop_first() =~= rs.skip(i + 1));
        }
        match rule[i].validate() {
            Err(err) => return Err(err),
            Ok(()) => {},
        }
        i = i + 1;
    }
    assert(rs.skip(rule@.len() as int).len() == 0);
    Ok(())
}

/// Flattens all rules into their display commands.
pub fn commands(rules: Vec<Rules>) -> (r: Vec<String>)
    ensures
        views(r@) == concat_all(rules_views(rules@).map_values(|x: RulesView| commands_spec(x))),
{
    let ghost parts = rules_views(rules@).map_values(|x: RulesView| commands_spec(x));
    let mut out: Vec<String> = Vec::new();
    let mut i: usize = 0;
    while i < rules.len()
        invariant
            i <= rules@.len(),
            parts == rules_views(rules@).map_values(|x: RulesView| commands_spec(x)),
            views(out@) == concat_all(parts.take(i as int)),
        decreases rules@.len() - i,
    {
        let c = rules[i].commands();
        extend_strings(&mut out, &c);
        proof {
            assert(parts.take(i + 1).drop_last() =~= parts.take(i as int));
            assert(views(out@) =~= concat_all(parts.take(i + 1)));
        }
        i = i + 1;
    }
    assert(parts.take(rules@.len() as int) =~= parts);
    out
}

/// Flattens all rules into their execution command lines, preserving argv
/// for ad-hoc `exec` rules instead of joining and re-parsing them.
pub fn command_lines(rules: Vec<Rules>) -> (r: Vec<CommandLine>)
    ensures
        line_views(r@) == concat_all(
            rules_views(rules@).map_values(|x: RulesView| command_lines_spec(x)),
        ),
{
    let ghost parts = rules_views(rules@).map_values(|x: RulesView| command_lines_spec(x));
    let mut out: Vec<CommandLine> = Vec::new();
    let mut i: usize = 0;
    while i < rules.len()
        invariant
            i <= rules@.len(),
            parts == rules_views(rules@).map_values(|x: RulesView| command_lines_spec(x)),
            line_views(out@) == concat_all(parts.take(i as int)),
        decreases rules@.len() - i,
    {
        let mut c = rules[i].command_lines();
        let ghost before = out@;
        out.append(&mut c);
        proof {
            assert(parts.take(i + 1).drop_last() =~= parts.take(i as int));
            assert(line_views(out@) =~= concat_all(parts.take(i + 1)));
        }
        i = i + 1;
    }
    assert(parts.take(rules@.len() as int) =~= parts);
    out
}

/// Lists every task with its change patterns and init trigger.
pub fn available_targets(rules: &[Rules]) -> (r: String)
    ensures
        r@ == available_targets_spec(rules_views(rules@)),
{
    let mut output = owned("Available tasks\n");
    if rules.len() == 0 {
        output.append("  (none)\n");
        return output;
    }
    let ghost entries = rules_views(rules@).map_values(|x: RulesView| target_entry(x));
    let mut i: usize = 0;
    while i < rules.len()
        invariant
            i <= rules@.len(),
            entries == rules_views(rules@).map_values(|x: RulesView| target_entry(x)),
            output@ == "Available tasks\n"@ + concat_all(entries.take(i as int)),
        decreases rules@.len() - i,
    {
        let rule = &rules[i];
        let ghost before = output@;
        output.append("  - ");
        output.append(rule.name.as_str());
        output.append("\n");
        if rule.watch_patterns.len() != 0 {
            output.append("    change: ");
            let joined = join_strings(&rule.watch_patterns, ", ");
            output.append(joined.as_str());
            output.append("\n");
        }
        if rule.run_on_init {
            output.append("    run_on_init: true\n");
        }
        proof {
            assert(parts_step(entries, i as int));
            assert(output@ =~= before + target_entry(rule@));
        }
        i = i + 1;
    }
    assert(entries.take(rules@.len() as int) =~= entries);
    output
}

spec fn parts_step(entries: Seq<Seq<char>>, i: int) -> bool {
    0 <= i < entries.len() ==> entries.take(i + 1).drop_last() =~= entries.take(i)
}

} // verus!
