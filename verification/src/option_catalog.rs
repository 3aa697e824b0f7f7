//! Canonical option catalog for the preferred `.watch.yaml` vocabulary:
//! one owner for property identity, required/default, type/enum,
//! explanation, and rendering example, consumed by the schema command, the
//! commented init renderer, and the parser allowlists.
//!
//! Scope: only legal preferred YAML properties (`on:` + ordered `jobs[]`).
//! Legacy `tasks:` inputs and CLI-only controls are excluded.
use vstd::prelude::*;

verus! {

/// Where a property lives in the preferred config.
#[derive(Clone, Copy, Debug, PartialEq, Eq, Structural)]
pub enum Owner {
    Root,
    On,
    Execution,
    Hooks,
    Job,
}

/// YAML kind of a property, mapped mechanically to JSON Schema by the schema
/// command and to comment text by the init renderer.
#[derive(Clone, Copy, Debug, PartialEq, Eq)]
pub enum SpecKind {
    Bool,
    Int,
    String,
    StringList,
    Duration,
    Enum(&'static [&'static str]),
    StringMap,
}

/// One catalog entry. `example` holds raw YAML lines without leading
/// indentation; renderers indent them per owner.
#[derive(Clone, Copy, Debug)]
pub struct OptionSpec {
    pub name: &'static str,
    pub owner: Owner,
    pub required: bool,
    pub default: Option<&'static str>,
    pub help: &'static str,
    pub values: Option<&'static str>,
    pub example: &'static [&'static str],
    pub kind: SpecKind,
}

/// Legal `output` policy values.
pub open spec fn output_values() -> &'static [&'static str] {
    &["inherit", "quiet", "capture", "show-on-failure"]
}

/// Legal `watch_backend` values.
pub open spec fn backend_values() -> &'static [&'static str] {
    &["native", "poll", "auto"]
}

/// Legal `recovery_policy` values.
pub open spec fn recovery_policy_values() -> &'static [&'static str] {
    &["prompt", "skip"]
}
/// Ordered `on:` properties; the order defines comment and schema order.
pub open spec fn on_catalog() -> Seq<OptionSpec> {
    seq![
        OptionSpec {
            name: "change",
            owner: Owner::On,
            required: false,
            default: None,
            help: "Common change globs applied to every job (inherited, merged first).",
            values: None,
            example: &["change: \"**/*\""],
            kind: SpecKind::StringList,
        },
        OptionSpec {
            name: "ignore",
            owner: Owner::On,
            required: false,
            default: None,
            help: "Common ignore globs; explicit config ignore wins over gitignore.",
            values: None,
            example: &["ignore: \"**/*.log\""],
            kind: SpecKind::StringList,
        },
        OptionSpec {
            name: "socket",
            owner: Owner::On,
            required: false,
            default: None,
            help: "Control socket path; enables the control surface (`fzz control`).",
            values: None,
            example: &["socket: .tmp/funzzy/control.sock"],
            kind: SpecKind::String,
        },
        OptionSpec {
            name: "debounce",
            owner: Owner::On,
            required: false,
            default: Some("1s"),
            help: "Filesystem batch debounce window.",
            values: None,
            example: &["debounce: 500ms"],
            kind: SpecKind::Duration,
        },
        OptionSpec {
            name: "watch_backend",
            owner: Owner::On,
            required: false,
            default: Some("auto"),
            help: "Watch backend: native first, then poll when native is unavailable.",
            values: Some("native | poll | auto"),
            example: &["watch_backend: poll"],
            kind: SpecKind::Enum(backend_values()),
        },
        OptionSpec {
            name: "poll_interval",
            owner: Owner::On,
            required: false,
            default: Some("500ms"),
            help: "Poll backend interval (only meaningful with `watch_backend: poll`).",
            values: None,
            example: &["poll_interval: 200ms"],
            kind: SpecKind::Duration,
        },
        OptionSpec {
            name: "respect_gitignore",
            owner: Owner::On,
            required: false,
            default: Some("false"),
            help: "Respect workspace .gitignore rules.",
            values: None,
            example: &["respect_gitignore: true"],
            kind: SpecKind::Bool,
        },
    ]
}

/// Ordered `execution:` properties.
pub open spec fn execution_catalog() -> Seq<OptionSpec> {
    seq![
        OptionSpec {
            name: "concurrency",
            owner: Owner::Execution,
            required: false,
            default: Some("machine parallelism"),
            help: "Global cap on simultaneously active tasks.",
            values: None,
            example: &["concurrency: 2"],
            kind: SpecKind::Int,
        },
        OptionSpec {
            name: "output",
            owner: Owner::Execution,
            required: false,
            default: Some("inherit"),
            help: "Default output policy for every job.",
            values: Some("inherit | quiet | capture | show-on-failure"),
            example: &["output: quiet"],
            kind: SpecKind::Enum(output_values()),
        },
        OptionSpec {
            name: "recovery_policy",
            owner: Owner::Execution,
            required: false,
            default: Some("prompt"),
            help: "Recovery approval policy for failed jobs with a recovery command; missing TTY safely skips.",
            values: Some("prompt | skip"),
            example: &["recovery_policy: prompt"],
            kind: SpecKind::Enum(recovery_policy_values()),
        },
        OptionSpec {
            name: "recovery_timeout",
            owner: Owner::Execution,
            required: false,
            default: Some("60s"),
            help: "Maximum time to wait for interactive recovery approval.",
            values: None,
            example: &["recovery_timeout: 60s"],
            kind: SpecKind::Duration,
        },
    ]
}

/// Ordered `hooks:` properties.
pub open spec fn hook_catalog() -> Seq<OptionSpec> {
    seq![
        OptionSpec {
            name: "success",
            owner: Owner::Hooks,
            required: false,
            default: None,
            help: "Hook command run after a successful generation.",
            values: None,
            example: &["success: echo ok > .fzz-success"],
            kind: SpecKind::String,
        },
        OptionSpec {
            name: "failure",
            owner: Owner::Hooks,
            required: false,
            default: None,
            help: "Hook command run after a failed generation.",
            values: None,
            example: &["failure: echo failed > .fzz-failed"],
            kind: SpecKind::String,
        },
        OptionSpec {
            name: "close",
            owner: Owner::Hooks,
            required: false,
            default: None,
            help: "Finite hook command run once when a ready watcher closes.",
            values: None,
            example: &["close: echo closed > .fzz-closed"],
            kind: SpecKind::String,
        },
    ]
}

/// Ordered `jobs[]` properties; `name` and `run` are required.
pub open spec fn job_catalog() -> Seq<OptionSpec> {
    seq![
        OptionSpec {
            name: "name",
            owner: Owner::Job,
            required: true,
            default: None,
            help: "Stable job identity; also the runtime task name. Must be unique.",
            values: None,
            example: &["name: reference"],
            kind: SpecKind::String,
        },
        OptionSpec {
            name: "run",
            owner: Owner::Job,
            required: true,
            default: None,
            help: "Command(s): a shell string or an argv list. Template variables: {{filepath}}, {{paths}}, {{relative_filepath}}.",
            values: None,
            example: &["run: [\"echo\", \"{{filepath}}\", \"{{paths}}\"]"],
            kind: SpecKind::StringList,
        },
        OptionSpec {
            name: "recovery",
            owner: Owner::Job,
            required: false,
            default: None,
            help: "Optional ordered shell commands offered for one approved recovery after this job fails; declaration never authorizes execution.",
            values: None,
            example: &["recovery: cargo fmt --all"],
            kind: SpecKind::StringList,
        },
        OptionSpec {
            name: "change",
            owner: Owner::Job,
            required: false,
            default: None,
            help: "Globs that trigger this job (appended to on.change).",
            values: None,
            example: &["change: [\"**/*.rs\", \"**/*.md\"]"],
            kind: SpecKind::StringList,
        },
        OptionSpec {
            name: "ignore",
            owner: Owner::Job,
            required: false,
            default: None,
            help: "Globs that suppress a match; strongest precedence.",
            values: None,
            example: &["ignore: [\"**/*.log\"]"],
            kind: SpecKind::StringList,
        },
        OptionSpec {
            name: "run_on_init",
            owner: Owner::Job,
            required: false,
            default: Some("false"),
            help: "Run this job when the watcher starts.",
            values: None,
            example: &["run_on_init: true"],
            kind: SpecKind::Bool,
        },
        OptionSpec {
            name: "parallel",
            owner: Owner::Job,
            required: false,
            default: None,
            help: "Named contiguous group; members run concurrently within the concurrency cap.",
            values: None,
            example: &["parallel: checks"],
            kind: SpecKind::String,
        },
        OptionSpec {
            name: "cwd",
            owner: Owner::Job,
            required: false,
            default: None,
            help: "Working directory for this job, relative to the workspace root.",
            values: None,
            example: &["cwd: scripts"],
            kind: SpecKind::String,
        },
        OptionSpec {
            name: "env",
            owner: Owner::Job,
            required: false,
            default: None,
            help: "Per-job environment; values are never echoed or generated.",
            values: None,
            example: &["env:", "  FOO: bar"],
            kind: SpecKind::StringMap,
        },
        OptionSpec {
            name: "service",
            owner: Owner::Job,
            required: false,
            default: Some("false"),
            help: "Managed long-running service: started on init, restarted on change, stopped on exit.",
            values: None,
            example: &["service: true"],
            kind: SpecKind::Bool,
        },
        OptionSpec {
            name: "output",
            owner: Owner::Job,
            required: false,
            default: None,
            help: "Job output policy override; inherits execution.output when absent.",
            values: Some("inherit | quiet | capture | show-on-failure"),
            example: &["output: show-on-failure"],
            kind: SpecKind::Enum(output_values()),
        },
    ]
}

/// Preferred root keys.
pub open spec fn root_catalog() -> Seq<OptionSpec> {
    seq![
        OptionSpec {
            name: "on",
            owner: Owner::Root,
            required: false,
            default: None,
            help: "Shared settings merged into every job.",
            values: None,
            example: &["on:"],
            kind: SpecKind::StringMap,
        },
        OptionSpec {
            name: "execution",
            owner: Owner::Root,
            required: false,
            default: None,
            help: "Scheduling and output policy.",
            values: None,
            example: &["execution:"],
            kind: SpecKind::StringMap,
        },
        OptionSpec {
            name: "hooks",
            owner: Owner::Root,
            required: false,
            default: None,
            help: "Generation and watcher lifecycle reactions.",
            values: None,
            example: &["hooks:"],
            kind: SpecKind::StringMap,
        },
        OptionSpec {
            name: "jobs",
            owner: Owner::Root,
            required: true,
            default: None,
            help: "Ordered list of configured jobs; declaration order and contiguous parallel groups are semantic.",
            values: None,
            example: &["jobs:"],
            kind: SpecKind::StringList,
        },
    ]
}

pub fn on_specs() -> (r: Vec<OptionSpec>)
    ensures
        r@ == on_catalog(),
{
    let r = vec![
        OptionSpec {
            name: "change",
            owner: Owner::On,
            required: false,
            default: None,
            help: "Common change globs applied to every job (inherited, merged first).",
            values: None,
            example: &["change: \"**/*\""],
            kind: SpecKind::StringList,
        },
        OptionSpec {
            name: "ignore",
            owner: Owner::On,
            required: false,
            default: None,
            help: "Common ignore globs; explicit config ignore wins over gitignore.",
            values: None,
            example: &["ignore: \"**/*.log\""],
            kind: SpecKind::StringList,
        },
        OptionSpec {
            name: "socket",
            owner: Owner::On,
            required: false,
            default: None,
            help: "Control socket path; enables the control surface (`fzz control`).",
            values: None,
            example: &["socket: .tmp/funzzy/control.sock"],
            kind: SpecKind::String,
        },
        OptionSpec {
            name: "debounce",
            owner: Owner::On,
            required: false,
            default: Some("1s"),
            help: "Filesystem batch debounce window.",
            values: None,
            example: &["debounce: 500ms"],
            kind: SpecKind::Duration,
        },
        OptionSpec {
            name: "watch_backend",
            owner: Owner::On,
            required: false,
            default: Some("auto"),
            help: "Watch backend: native first, then poll when native is unavailable.",
            values: Some("native | poll | auto"),
            example: &["watch_backend: poll"],
            kind: SpecKind::Enum(&["native", "poll", "auto"]),
        },
        OptionSpec {
            name: "poll_interval",
            owner: Owner::On,
            required: false,
            default: Some("500ms"),
            help: "Poll backend interval (only meaningful with `watch_backend: poll`).",
            values: None,
            example: &["poll_interval: 200ms"],
            kind: SpecKind::Duration,
        },
        OptionSpec {
            name: "respect_gitignore",
            owner: Owner::On,
            required: false,
            default: Some("false"),
            help: "Respect workspace .gitignore rules.",
            values: None,
            example: &["respect_gitignore: true"],
            kind: SpecKind::Bool,
        },
    ];
    assert(r@ =~= on_catalog());
    r
}

pub fn execution_specs() -> (r: Vec<OptionSpec>)
    ensures
        r@ == execution_catalog(),
{
    let r = vec![
        OptionSpec {
            name: "concurrency",
            owner: Owner::Execution,
            required: false,
            default: Some("machine parallelism"),
            help: "Global cap on simultaneously active tasks.",
            values: None,
            example: &["concurrency: 2"],
            kind: SpecKind::Int,
        },
        OptionSpec {
            name: "output",
            owner: Owner::Execution,
            required: false,
            default: Some("inherit"),
            help: "Default output policy for every job.",
            values: Some("inherit | quiet | capture | show-on-failure"),
            example: &["output: quiet"],
            kind: SpecKind::Enum(&["inherit", "quiet", "capture", "show-on-failure"]),
        },
        OptionSpec {
            name: "recovery_policy",
            owner: Owner::Execution,
            required: false,
            default: Some("prompt"),
            help: "Recovery approval policy for failed jobs with a recovery command; missing TTY safely skips.",
            values: Some("prompt | skip"),
            example: &["recovery_policy: prompt"],
            kind: SpecKind::Enum(&["prompt", "skip"]),
        },
        OptionSpec {
            name: "recovery_timeout",
            owner: Owner::Execution,
            required: false,
            default: Some("60s"),
            help: "Maximum time to wait for interactive recovery approval.",
            values: None,
            example: &["recovery_timeout: 60s"],
            kind: SpecKind::Duration,
        },
    ];
    assert(r@ =~= execution_catalog());
    r
}

pub fn hook_specs() -> (r: Vec<OptionSpec>)
    ensures
        r@ == hook_catalog(),
{
    let r = vec![
        OptionSpec {
            name: "success",
            owner: Owner::Hooks,
            required: false,
            default: None,
            help: "Hook command run after a successful generation.",
            values: None,
            example: &["success: echo ok > .fzz-success"],
            kind: SpecKind::String,
        },
        OptionSpec {
            name: "failure",
            owner: Owner::Hooks,
            required: false,
            default: None,
            help: "Hook command run after a failed generation.",
            values: None,
            example: &["failure: echo failed > .fzz-failed"],
            kind: SpecKind::String,
        },
        OptionSpec {
            name: "close",
            owner: Owner::Hooks,
            required: false,
            default: None,
            help: "Finite hook command run once when a ready watcher closes.",
            values: None,
            example: &["close: echo closed > .fzz-closed"],
            kind: SpecKind::String,
        },
    ];
    assert(r@ =~= hook_catalog());
    r
}

pub fn job_specs() -> (r: Vec<OptionSpec>)
    ensures
        r@ == job_catalog(),
{
    let r = vec![
        OptionSpec {
            name: "name",
            owner: Owner::Job,
            required: true,
            default: None,
            help: "Stable job identity; also the runtime task name. Must be unique.",
            values: None,
            example: &["name: reference"],
            kind: SpecKind::String,
        },
        OptionSpec {
            name: "run",
            owner: Owner::Job,
            required: true,
            default: None,
            help: "Command(s): a shell string or an argv list. Template variables: {{filepath}}, {{paths}}, {{relative_filepath}}.",
            values: None,
            example: &["run: [\"echo\", \"{{filepath}}\", \"{{paths}}\"]"],
            kind: SpecKind::StringList,
        },
        OptionSpec {
            name: "recovery",
            owner: Owner::Job,
            required: false,
            default: None,
            help: "Optional ordered shell commands offered for one approved recovery after this job fails; declaration never authorizes execution.",
            values: None,
            example: &["recovery: cargo fmt --all"],
            kind: SpecKind::StringList,
        },
        OptionSpec {
            name: "change",
            owner: Owner::Job,
            required: false,
            default: None,
            help: "Globs that trigger this job (appended to on.change).",
            values: None,
            example: &["change: [\"**/*.rs\", \"**/*.md\"]"],
            kind: SpecKind::StringList,
        },
        OptionSpec {
            name: "ignore",
            owner: Owner::Job,
            required: false,
            default: None,
            help: "Globs that suppress a match; strongest precedence.",
            values: None,
            example: &["ignore: [\"**/*.log\"]"],
            kind: SpecKind::StringList,
        },
        OptionSpec {
            name: "run_on_init",
            owner: Owner::Job,
            required: false,
            default: Some("false"),
            help: "Run this job when the watcher starts.",
            values: None,
            example: &["run_on_init: true"],
            kind: SpecKind::Bool,
        },
        OptionSpec {
            name: "parallel",
            owner: Owner::Job,
            required: false,
            default: None,
            help: "Named contiguous group; members run concurrently within the concurrency cap.",
            values: None,
            example: &["parallel: checks"],
            kind: SpecKind::String,
        },
        OptionSpec {
            name: "cwd",
            owner: Owner::Job,
            required: false,
            default: None,
            help: "Working directory for this job, relative to the workspace root.",
            values: None,
            example: &["cwd: scripts"],
            kind: SpecKind::String,
        },
        OptionSpec {
            name: "env",
            owner: Owner::Job,
            required: false,
            default: None,
            help: "Per-job environment; values are never echoed or generated.",
            values: None,
            example: &["env:", "  FOO: bar"],
            kind: SpecKind::StringMap,
        },
        OptionSpec {
            name: "service",
            owner: Owner::Job,
            required: false,
            default: Some("false"),
            help: "Managed long-running service: started on init, restarted on change, stopped on exit.",
            values: None,
            example: &["service: true"],
            kind: SpecKind::Bool,
        },
        OptionSpec {
            name: "output",
            owner: Owner::Job,
            required: false,
            default: None,
            help: "Job output policy override; inherits execution.output when absent.",
            values: Some("inherit | quiet | capture | show-on-failure"),
            example: &["output: show-on-failure"],
            kind: SpecKind::Enum(&["inherit", "quiet", "capture", "show-on-failure"]),
        },
    ];
    assert(r@ =~= job_catalog());
    r
}

pub fn root_specs() -> (r: Vec<OptionSpec>)
    ensures
        r@ == root_catalog(),
{
    let r = vec![
        OptionSpec {
            name: "on",
            owner: Owner::Root,
            required: false,
            default: None,
            help: "Shared settings merged into every job.",
            values: None,
            example: &["on:"],
            kind: SpecKind::StringMap,
        },
        OptionSpec {
            name: "execution",
            owner: Owner::Root,
            required: false,
            default: None,
            help: "Scheduling and output policy.",
            values: None,
            example: &["execution:"],
            kind: SpecKind::StringMap,
        },
        OptionSpec {
            name: "hooks",
            owner: Owner::Root,
            required: false,
            default: None,
            help: "Generation and watcher lifecycle reactions.",
            values: None,
            example: &["hooks:"],
            kind: SpecKind::StringMap,
        },
        OptionSpec {
            name: "jobs",
            owner: Owner::Root,
            required: true,
            default: None,
            help: "Ordered list of configured jobs; declaration order and contiguous parallel groups are semantic.",
            values: None,
            example: &["jobs:"],
            kind: SpecKind::StringList,
        },
    ];
    assert(r@ =~= root_catalog());
    r
}


/// The catalog shown by renderers: the `on:` properties (root keys are
/// structural and job keys are rendered per job).
pub fn all_specs() -> (r: Vec<OptionSpec>)
    ensures
        r@ == on_catalog(),
{
    on_specs()
}

/// The catalog of one owner.
pub open spec fn catalog_of(owner: Owner) -> Seq<OptionSpec> {
    match owner {
        Owner::On => on_catalog(),
        Owner::Execution => execution_catalog(),
        Owner::Hooks => hook_catalog(),
        Owner::Job => job_catalog(),
        Owner::Root => root_catalog(),
    }
}

/// Every entry, in lookup order: `on`, `execution`, `hooks`, `jobs`, root.
pub open spec fn full_catalog() -> Seq<OptionSpec> {
    on_catalog() + execution_catalog() + hook_catalog() + job_catalog() + root_catalog()
}

/// Names of catalog entries, in order.
pub open spec fn names_of(specs: Seq<OptionSpec>) -> Seq<&'static str> {
    specs.map_values(|s: OptionSpec| s.name)
}

/// The first entry named `name`, if any.
pub open spec fn find_spec(specs: Seq<OptionSpec>, name: Seq<char>) -> Option<OptionSpec>
    decreases specs.len(),
{
    if specs.len() == 0 {
        None
    } else if specs[0].name@ == name {
        Some(specs[0])
    } else {
        find_spec(specs.drop_first(), name)
    }
}

/// All legal preferred YAML property names for an owner (parser
/// allowlists).
pub fn property_names(owner: Owner) -> (r: Vec<&'static str>)
    ensures
        r@ == names_of(catalog_of(owner)),
{
    let specs = match owner {
        Owner::On => on_specs(),
        Owner::Execution => execution_specs(),
        Owner::Hooks => hook_specs(),
        Owner::Job => job_specs(),
        Owner::Root => root_specs(),
    };
    let mut names: Vec<&'static str> = Vec::new();
    let mut i: usize = 0;
    while i < specs.len()
        invariant
            i <= specs@.len(),
            names@ == names_of(specs@.take(i as int)),
        decreases specs@.len() - i,
    {
        names.push(specs[i].name);
        i = i + 1;
        assert(names@ =~= names_of(specs@.take(i as int)));
    }
    assert(specs@.take(specs@.len() as int) =~= specs@);
    names
}

/// The catalog entry for a property name, searching `on`, `execution`,
/// `hooks`, `jobs` and root keys in that order.
pub fn find(name: &str) -> (r: Option<OptionSpec>)
    ensures
        r == find_spec(full_catalog(), name@),
{
    let mut all = on_specs();
    all.append(&mut execution_specs());
    all.append(&mut hook_specs());
    all.append(&mut job_specs());
    all.append(&mut root_specs());
    assert(all@ =~= full_catalog());
    let wanted = crate::text::to_chars(name);
    let mut i: usize = 0;
    assert(all@.skip(0) =~= all@);
    while i < all.len()
        invariant
            i <= all@.len(),
            wanted@ == name@,
            all@ == full_catalog(),
            find_spec(all@, name@) == find_spec(all@.skip(i as int), name@),
        decreases all@.len() - i,
    {
        proof {
            assert(all@.skip(i as int)[0] == all@[i as int]);
            assert(all@.skip(i as int).drop_first() =~= all@.skip(i + 1));
        }
        let candidate = crate::text::to_chars(all[i].name);
        if crate::text::chars_eq(&candidate, &wanted) {
            return Some(all[i]);
        }
        i = i + 1;
    }
    None
}

/// A property that a renderer/schema must show as optional (commented),
/// i.e. not required and not structurally active.
pub fn is_optional(spec: &OptionSpec) -> (r: bool)
    ensures
        r == !spec.required,
{
    !spec.required
}

/// Two texts differ when their lengths or their first characters do.
proof fn lemma_texts_differ(a: Seq<char>, b: Seq<char>)
    ensures
        (a.len() != b.len() || (a.len() > 0 && b.len() > 0 && a[0] != b[0])) ==> a != b,
{
}

/// Only `name` and `run` are required job properties.
pub proof fn law_only_name_and_run_are_required()
    ensures
        forall|i: int|
            0 <= i < job_catalog().len() ==> (#[trigger] job_catalog()[i]).required == (
            job_catalog()[i].name@ == "name"@ || job_catalog()[i].name@ == "run"@),
{
    reveal_strlit("name");
    reveal_strlit("run");
    reveal_strlit("recovery");
    reveal_strlit("change");
    reveal_strlit("ignore");
    reveal_strlit("run_on_init");
    reveal_strlit("parallel");
    reveal_strlit("cwd");
    reveal_strlit("env");
    reveal_strlit("service");
    reveal_strlit("output");
    assert forall|i: int| 0 <= i < job_catalog().len() implies (#[trigger] job_catalog()[i]).required == (
        job_catalog()[i].name@ == "name"@ || job_catalog()[i].name@ == "run"@) by {
        lemma_texts_differ(job_catalog()[i].name@, "name"@);
        lemma_texts_differ(job_catalog()[i].name@, "run"@);
    }
}

/// Every `on:` property is optional.
pub proof fn law_on_properties_are_optional()
    ensures
        forall|i: int| 0 <= i < on_catalog().len() ==> !(#[trigger] on_catalog()[i]).required,
{
}

/// Every rendered entry (`on:` and jobs) explains itself and shows an
/// example; every enum property lists its values.
pub proof fn law_entries_are_documented()
    ensures
        forall|i: int|
            0 <= i < (on_catalog() + job_catalog()).len() ==> {
                let s = #[trigger] (on_catalog() + job_catalog())[i];
                &&& s.help@.len() > 0
                &&& s.example@.len() > 0
                &&& (s.kind matches SpecKind::Enum(values) ==> s.values is Some && values@.len()
                    > 0)
            },
{
    reveal_strlit("Common change globs applied to every job (inherited, merged first).");
    reveal_strlit("Common ignore globs; explicit config ignore wins over gitignore.");
    reveal_strlit("Control socket path; enables the control surface (`fzz control`).");
    reveal_strlit("Filesystem batch debounce window.");
    reveal_strlit("Watch backend: native first, then poll when native is unavailable.");
    reveal_strlit("Poll backend interval (only meaningful with `watch_backend: poll`).");
    reveal_strlit("Respect workspace .gitignore rules.");
    reveal_strlit("Stable job identity; also the runtime task name. Must be unique.");
    reveal_strlit("Command(s): a shell string or an argv list. Template variables: {{filepath}}, {{paths}}, {{relative_filepath}}.");
    reveal_strlit("Optional ordered shell commands offered for one approved recovery after this job fails; declaration never authorizes execution.");
    reveal_strlit("Globs that trigger this job (appended to on.change).");
    reveal_strlit("Globs that suppress a match; strongest precedence.");
    reveal_strlit("Run this job when the watcher starts.");
    reveal_strlit("Named contiguous group; members run concurrently within the concurrency cap.");
    reveal_strlit("Working directory for this job, relative to the workspace root.");
    reveal_strlit("Per-job environment; values are never echoed or generated.");
    reveal_strlit("Managed long-running service: started on init, restarted on change, stopped on exit.");
    reveal_strlit("Job output policy override; inherits execution.output when absent.");
    assert forall|i: int| 0 <= i < (on_catalog() + job_catalog()).len() implies {
        let s = #[trigger] (on_catalog() + job_catalog())[i];
        &&& s.help@.len() > 0
        &&& s.example@.len() > 0
        &&& (s.kind matches SpecKind::Enum(values) ==> s.values is Some && values@.len() > 0)
    } by {
        if i < on_catalog().len() {
            assert((on_catalog() + job_catalog())[i] == on_catalog()[i]);
        } else {
            assert((on_catalog() + job_catalog())[i] == job_catalog()[i - on_catalog().len()]);
        }
    }
}

} // verus!
