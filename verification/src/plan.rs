//! Execution domain: task-aware run plans and outcomes.
//!
//! `RunPlan` preserves workflow topology as ordered serial tasks and named
//! parallel-group occurrences with barriers, instead of a flat command list.
//! `TaskPlan` keeps stable task identity, sequential command order, and
//! expanded path values. `RunOutcome`/`TaskOutcome` combine results keyed by
//! task identity.
//!
//! This module is pure: planning, filtering, and outcome combination have no
//! process, stdout, control-socket, or threading side effects.
use std::collections::BTreeMap;
use vstd::prelude::*;

use crate::rules::{
    clone_lines, command_lines_spec, concat_all, lemma_concat_all_append, lemma_concat_all_push,
    line_views, opt_view,
    CommandLine, CommandSpec, Rules, RulesView,
};
use crate::template::{expand_lines, filepath_of, paths_of, template_line, TemplateOptions};
use crate::text::{
    chars_eq, decimal, decimal_string, digit_char, extend_strings, join, join_strings, lemma_lex_asymmetric,
    lemma_lex_irreflexive, lex_lt, owned, split, split_exec, starts_with, starts_with_exec,
    strictly_sorted, to_chars, views,
};

verus! {

/// Process context applied only to one task's child commands.
#[derive(Debug, Clone, Default, PartialEq, Eq)]
pub struct TaskContext {
    pub cwd: Option<String>,
    pub environment: BTreeMap<String, String>,
}

/// One task selected for execution, with stable identity and sequential
/// command order preserved.
#[derive(Debug, Clone, PartialEq, Eq)]
pub struct TaskPlan {
    /// Stable task identity: the configured name.
    pub name: String,
    /// Position in the parsed workflow (stable within one plan).
    pub position: usize,
    /// Sequential commands, in declared order, after template expansion.
    pub commands: Vec<CommandLine>,
    /// Optional named `parallel` group the task belongs to.
    pub parallel: Option<String>,
    /// Stable group-occurrence identity `name#N`: the named parallel group
    /// plus its occurrence index within the plan. None for serial tasks.
    pub group_occurrence: Option<String>,
    /// The original rule, kept for matching/presentation consumers.
    pub rule: Rules,
    /// Effective child process context. Relative cwd is resolved before spawn.
    pub context: TaskContext,
}

/// One stage of a run: a serial task or a named parallel-group occurrence.
#[derive(Debug, Clone, PartialEq, Eq)]
pub enum Stage {
    /// A task that runs alone between barriers.
    Serial(TaskPlan),
    /// A contiguous occurrence of tasks sharing one `parallel` group name.
    Parallel { group: String, tasks: Vec<TaskPlan> },
}

/// Ordered execution plan preserving barriers and group occurrences.
#[derive(Debug, Clone, PartialEq, Eq)]
pub struct RunPlan {
    pub stages: Vec<Stage>,
}

/// Per-task outcome.
#[derive(Debug, Clone, PartialEq, Eq)]
pub enum TaskOutcome {
    Passed,
    Failed { failures: Vec<String> },
    Cancelled,
    Skipped,
}

/// Overall run outcome derived deterministically from task outcomes.
#[derive(Debug, Clone, Default, PartialEq, Eq)]
pub struct RunOutcome {
    /// Task identity -> outcome, preserving plan order.
    pub tasks: Vec<(String, TaskOutcome)>,
}

// ---------------------------------------------------------------------------
// Models
// ---------------------------------------------------------------------------

pub struct TaskPlanView {
    pub name: Seq<char>,
    pub position: int,
    pub commands: Seq<CommandSpec>,
    pub parallel: Option<Seq<char>>,
    pub group_occurrence: Option<Seq<char>>,
    pub rule: RulesView,
    pub cwd: Option<Seq<char>>,
    pub environment: Map<String, String>,
}

impl View for TaskPlan {
    type V = TaskPlanView;

    open spec fn view(&self) -> TaskPlanView {
        TaskPlanView {
            name: self.name@,
            position: self.position as int,
            commands: line_views(self.commands@),
            parallel: opt_view(self.parallel),
            group_occurrence: opt_view(self.group_occurrence),
            rule: self.rule@,
            cwd: opt_view(self.context.cwd),
            environment: self.context.environment@,
        }
    }
}

pub open spec fn task_views(v: Seq<TaskPlan>) -> Seq<TaskPlanView> {
    v.map_values(|t: TaskPlan| t@)
}

pub enum StageView {
    Serial(TaskPlanView),
    Parallel { group: Seq<char>, tasks: Seq<TaskPlanView> },
}

impl View for Stage {
    type V = StageView;

    open spec fn view(&self) -> StageView {
        match self {
            Stage::Serial(t) => StageView::Serial(t@),
            Stage::Parallel { group, tasks } => StageView::Parallel {
                group: group@,
                tasks: task_views(tasks@),
            },
        }
    }
}

pub open spec fn stage_views(v: Seq<Stage>) -> Seq<StageView> {
    v.map_values(|s: Stage| s@)
}

impl View for RunPlan {
    type V = Seq<StageView>;

    open spec fn view(&self) -> Seq<StageView> {
        stage_views(self.stages@)
    }
}

/// The tasks of one stage, in order.
pub open spec fn stage_tasks_spec(s: StageView) -> Seq<TaskPlanView> {
    match s {
        StageView::Serial(t) => seq![t],
        StageView::Parallel { tasks, .. } => tasks,
    }
}

/// All tasks of a plan in plan order.
pub open spec fn plan_tasks(stages: Seq<StageView>) -> Seq<TaskPlanView> {
    concat_all(stages.map_values(|s: StageView| stage_tasks_spec(s)))
}

/// All commands of a plan in execution order for a concurrency of one.
pub open spec fn plan_commands(stages: Seq<StageView>) -> Seq<CommandSpec> {
    concat_all(plan_tasks(stages).map_values(|t: TaskPlanView| t.commands))
}

/// All task names of a plan in plan order.
pub open spec fn plan_names(stages: Seq<StageView>) -> Seq<Seq<char>> {
    plan_tasks(stages).map_values(|t: TaskPlanView| t.name)
}

impl TaskContext {
    /// A copy of this context.
    pub fn duplicate(&self) -> (r: TaskContext)
        ensures
            opt_view(r.cwd) == opt_view(self.cwd),
            r.environment@ == self.environment@,
    {
        TaskContext {
            cwd: match &self.cwd {
                Some(c) => Some(c.clone()),
                None => None,
            },
            environment: self.environment.clone(),
        }
    }
}

fn clone_opt(o: &Option<String>) -> (r: Option<String>)
    ensures
        opt_view(r) == opt_view(*o),
{
    match o {
        Some(s) => Some(s.clone()),
        None => None,
    }
}

impl TaskPlan {
    /// A copy of the task plan.
    pub fn duplicate(&self) -> (r: TaskPlan)
        ensures
            r@ == self@,
    {
        TaskPlan {
            name: self.name.clone(),
            position: self.position,
            commands: clone_lines(&self.commands),
            parallel: clone_opt(&self.parallel),
            group_occurrence: clone_opt(&self.group_occurrence),
            rule: self.rule.duplicate(),
            context: self.context.duplicate(),
        }
    }
}

/// The tasks of one stage, in order.
pub fn stage_tasks(stage: Stage) -> (r: Vec<TaskPlan>)
    ensures
        task_views(r@) == stage_tasks_spec(stage@),
{
    match stage {
        Stage::Serial(task) => {
            let r = vec![task];
            assert(task_views(r@) =~= stage_tasks_spec(stage@));
            r
        },
        Stage::Parallel { tasks, .. } => tasks,
    }
}

pub proof fn lemma_plan_push(s: Seq<StageView>, st: StageView)
    ensures
        plan_tasks(s.push(st)) == plan_tasks(s) + stage_tasks_spec(st),
        plan_commands(s.push(st)) == plan_commands(s) + concat_all(
            stage_tasks_spec(st).map_values(|t: TaskPlanView| t.commands),
        ),
        plan_names(s.push(st)) == plan_names(s) + stage_tasks_spec(st).map_values(
            |t: TaskPlanView| t.name,
        ),
{
    let f = |x: StageView| stage_tasks_spec(x);
    assert(s.push(st).map_values(f) =~= s.map_values(f).push(stage_tasks_spec(st)));
    lemma_concat_all_push(s.map_values(f), stage_tasks_spec(st));
    let g = |t: TaskPlanView| t.commands;
    assert((plan_tasks(s) + stage_tasks_spec(st)).map_values(g) =~= plan_tasks(s).map_values(g)
        + stage_tasks_spec(st).map_values(g));
    lemma_concat_all_append(plan_tasks(s).map_values(g), stage_tasks_spec(st).map_values(g));
    let h = |t: TaskPlanView| t.name;
    assert((plan_tasks(s) + stage_tasks_spec(st)).map_values(h) =~= plan_tasks(s).map_values(h)
        + stage_tasks_spec(st).map_values(h));
}

/// Appends the commands of every task, in order.
fn append_task_commands(out: &mut Vec<CommandLine>, tasks: &Vec<TaskPlan>)
    ensures
        line_views(final(out)@) == line_views(old(out)@) + concat_all(
            task_views(tasks@).map_values(|t: TaskPlanView| t.commands),
        ),
{
    let ghost tv = task_views(tasks@);
    let mut j: usize = 0;
    while j < tasks.len()
        invariant
            j <= tasks@.len(),
            tv == task_views(tasks@),
            line_views(out@) == line_views(old(out)@) + concat_all(
                tv.take(j as int).map_values(|t: TaskPlanView| t.commands),
            ),
        decreases tasks@.len() - j,
    {
        let ghost before = out@;
        let mut c = clone_lines(&tasks[j].commands);
        let ghost cv = c@;
        out.append(&mut c);
        proof {
            let g = |t: TaskPlanView| t.commands;
            assert(tv.take(j + 1).map_values(g) =~= tv.take(j as int).map_values(g).push(
                tv[j as int].commands,
            ));
            lemma_concat_all_push(tv.take(j as int).map_values(g), tv[j as int].commands);
            assert(line_views(out@) =~= line_views(before) + line_views(cv));
        }
        j = j + 1;
    }
    assert(tv.take(tasks@.len() as int) =~= tv);
}

/// Appends the name of every task, in order.
fn append_task_names(out: &mut Vec<String>, tasks: &Vec<TaskPlan>)
    ensures
        views(final(out)@) == views(old(out)@) + task_views(tasks@).map_values(
            |t: TaskPlanView| t.name,
        ),
{
    let mut j: usize = 0;
    while j < tasks.len()
        invariant
            j <= tasks@.len(),
            views(out@) == views(old(out)@) + task_views(tasks@).take(j as int).map_values(
                |t: TaskPlanView| t.name,
            ),
        decreases tasks@.len() - j,
    {
        let ghost before = out@;
        out.push(tasks[j].name.clone());
        proof {
            let h = |t: TaskPlanView| t.name;
            assert(task_views(tasks@).take(j + 1).map_values(h) =~= task_views(tasks@).take(
                j as int,
            ).map_values(h).push(tasks@[j as int].name@));
            assert(views(out@) =~= views(before).push(tasks@[j as int].name@));
        }
        j = j + 1;
    }
    assert(task_views(tasks@).take(tasks@.len() as int) =~= task_views(tasks@));
}

impl RunPlan {
    /// The plan with no stages.
    pub fn empty() -> (r: RunPlan)
        ensures
            r@.len() == 0,
    {
        RunPlan { stages: Vec::new() }
    }

    /// True when no stage remains.
    pub fn is_empty(&self) -> (r: bool)
        ensures
            r == (self@.len() == 0),
    {
        self.stages.len() == 0
    }

    /// Flattens the plan into one ordered command list: the exact execution
    /// order a concurrency limit of one produces.
    pub fn commands(&self) -> (r: Vec<CommandLine>)
        ensures
            line_views(r@) == plan_commands(self@),
    {
        let mut out: Vec<CommandLine> = Vec::new();
        let mut i: usize = 0;
        while i < self.stages.len()
            invariant
                i <= self.stages@.len(),
                line_views(out@) == plan_commands(self@.take(i as int)),
            decreases self.stages@.len() - i,
        {
            match &self.stages[i] {
                Stage::Serial(plan) => {
                    let ghost before = out@;
                    let mut c = clone_lines(&plan.commands);
                    let ghost cv = c@;
                    out.append(&mut c);
                    proof {
                        assert(line_views(out@) =~= line_views(before) + line_views(cv));
                        assert(seq![plan@].map_values(|t: TaskPlanView| t.commands) =~= seq![
                            plan@.commands,
                        ]);
                        lemma_concat_all_push(Seq::<Seq<CommandSpec>>::empty(), plan@.commands);
                        assert(seq![plan@.commands] =~= Seq::<Seq<CommandSpec>>::empty().push(
                            plan@.commands,
                        ));
                    }
                },
                Stage::Parallel { tasks, .. } => {
                    append_task_commands(&mut out, tasks);
                },
            }
            proof {
                assert(self@.take(i + 1) =~= self@.take(i as int).push(self@[i as int]));
                lemma_plan_push(self@.take(i as int), self@[i as int]);
            }
            i = i + 1;
        }
        assert(self@.take(self@.len() as int) =~= self@);
        out
    }

    /// All task identities in plan order.
    pub fn task_names(&self) -> (r: Vec<String>)
        ensures
            views(r@) == plan_names(self@),
    {
        let mut out: Vec<String> = Vec::new();
        let mut i: usize = 0;
        while i < self.stages.len()
            invariant
                i <= self.stages@.len(),
                views(out@) == plan_names(self@.take(i as int)),
            decreases self.stages@.len() - i,
        {
            match &self.stages[i] {
                Stage::Serial(plan) => {
                    out.push(plan.name.clone());
                    proof {
                        assert(seq![plan@].map_values(|t: TaskPlanView| t.name) =~= seq![
                            plan@.name,
                        ]);
                    }
                },
                Stage::Parallel { tasks, .. } => {
                    append_task_names(&mut out, tasks);
                },
            }
            proof {
                assert(self@.take(i + 1) =~= self@.take(i as int).push(self@[i as int]));
                lemma_plan_push(self@.take(i as int), self@[i as int]);
                assert(views(out@) =~= plan_names(self@.take(i + 1)));
            }
            i = i + 1;
        }
        assert(self@.take(self@.len() as int) =~= self@);
        out
    }
}


// ---------------------------------------------------------------------------
// Building a plan from rules
// ---------------------------------------------------------------------------

/// The task planned for one rule at a workflow position.
pub open spec fn task_from_rule(r: RulesView, position: int) -> TaskPlanView {
    TaskPlanView {
        name: r.name,
        position,
        commands: command_lines_spec(r),
        parallel: r.parallel,
        group_occurrence: None,
        rule: r,
        cwd: r.cwd,
        environment: r.environment,
    }
}

/// Number of parallel-group occurrences named `group` among `stages`.
pub open spec fn occurrences(stages: Seq<StageView>, group: Seq<char>) -> nat
    decreases stages.len(),
{
    if stages.len() == 0 {
        0
    } else {
        occurrences(stages.drop_last(), group) + match stages.last() {
            StageView::Parallel { group: g, .. } => if g == group {
                1nat
            } else {
                0nat
            },
            StageView::Serial(_) => 0nat,
        }
    }
}

/// Group-occurrence identity `group#n`.
pub open spec fn occurrence_id(group: Seq<char>, n: nat) -> Seq<char> {
    group + "#"@ + decimal(n)
}

/// A task tagged with a group-occurrence identity.
pub open spec fn tag_task(t: TaskPlanView, id: Seq<char>) -> TaskPlanView {
    TaskPlanView { group_occurrence: Some(id), ..t }
}

/// Closes an open group: appends it as the next occurrence of its name.
pub open spec fn close_group(
    stages: Seq<StageView>,
    group: Seq<char>,
    tasks: Seq<TaskPlanView>,
) -> Seq<StageView> {
    let id = occurrence_id(group, occurrences(stages, group) + 1);
    stages.push(
        StageView::Parallel { group, tasks: tasks.map_values(|t: TaskPlanView| tag_task(t, id)) },
    )
}

/// Plan under construction: closed stages plus the group still open.
pub struct Building {
    pub stages: Seq<StageView>,
    pub open: Option<(Seq<char>, Seq<TaskPlanView>)>,
}

pub open spec fn close_open(b: Building) -> Seq<StageView> {
    match b.open {
        Some((g, ts)) => close_group(b.stages, g, ts),
        None => b.stages,
    }
}

/// Adds one task: it joins the open group of the same name, opens a new
/// group (closing a different open one), or closes any open group and
/// runs serially.
pub open spec fn build_step(b: Building, t: TaskPlanView) -> Building {
    match t.parallel {
        Some(g) => match b.open {
            Some((og, ts)) => if g == og {
                Building { stages: b.stages, open: Some((og, ts.push(t))) }
            } else {
                Building { stages: close_open(b), open: Some((g, seq![t])) }
            },
            None => Building { stages: b.stages, open: Some((g, seq![t])) },
        },
        None => Building { stages: close_open(b).push(StageView::Serial(t)), open: None },
    }
}

pub open spec fn build(rules: Seq<RulesView>) -> Building
    decreases rules.len(),
{
    if rules.len() == 0 {
        Building { stages: Seq::empty(), open: None }
    } else {
        build_step(build(rules.drop_last()), task_from_rule(rules.last(), rules.len() - 1))
    }
}

/// The plan built from rules in configuration order.
pub open spec fn from_rules_spec(rules: Seq<RulesView>) -> Seq<StageView> {
    close_open(build(rules))
}

pub proof fn lemma_occurrences_bound(stages: Seq<StageView>, group: Seq<char>)
    ensures
        occurrences(stages, group) <= stages.len(),
    decreases stages.len(),
{
    if stages.len() > 0 {
        lemma_occurrences_bound(stages.drop_last(), group);
    }
}

pub proof fn lemma_build_bounds(rules: Seq<RulesView>)
    ensures
        build(rules).stages.len() <= rules.len(),
        build(rules).open matches Some((g, ts)) ==> build(rules).stages.len() < rules.len(),
    decreases rules.len(),
{
    if rules.len() > 0 {
        lemma_build_bounds(rules.drop_last());
    }
}

fn count_occurrences(stages: &Vec<Stage>, group: &String) -> (r: usize)
    ensures
        r == occurrences(stage_views(stages@), group@),
{
    let ghost sv = stage_views(stages@);
    let mut n: usize = 0;
    let mut i: usize = 0;
    while i < stages.len()
        invariant
            i <= stages@.len(),
            sv == stage_views(stages@),
            n == occurrences(sv.take(i as int), group@),
            n <= i,
        decreases stages@.len() - i,
    {
        proof {
            assert(sv.take(i + 1).drop_last() =~= sv.take(i as int));
            assert(sv.take(i + 1).last() == sv[i as int]);
            assert(sv[i as int] == stages@[i as int]@);
        }
        match &stages[i] {
            Stage::Parallel { group: g, .. } => {
                let same = g.eq(group);
                assert(same == (g@ == group@));
                if same {
                    n = n + 1;
                }
            },
            Stage::Serial(_) => {},
        }
        i = i + 1;
    }
    assert(sv.take(stages@.len() as int) =~= sv);
    n
}

/// Closes an open group, tagging its tasks with the next occurrence id.
fn close_group_exec(group: String, tasks: Vec<TaskPlan>, stages: &mut Vec<Stage>)
    requires
        old(stages)@.len() < usize::MAX,
    ensures
        stage_views(final(stages)@) == close_group(
            stage_views(old(stages)@),
            group@,
            task_views(tasks@),
        ),
{
    let count = count_occurrences(stages, &group);
    proof {
        lemma_occurrences_bound(stage_views(stages@), group@);
    }
    let number = count + 1;
    let mut id = group.clone();
    id.append("#");
    let digits = decimal_string(number as u64);
    id.append(digits.as_str());
    let ghost idv = occurrence_id(group@, occurrences(stage_views(old(stages)@), group@) + 1);
    assert(id@ =~= idv);
    let mut tagged: Vec<TaskPlan> = Vec::new();
    let mut i: usize = 0;
    while i < tasks.len()
        invariant
            i <= tasks@.len(),
            id@ == idv,
            tagged@.len() == i,
            forall|k: int| 0 <= k < i ==> (#[trigger] tagged@[k])@ == tag_task(tasks@[k]@, idv),
        decreases tasks@.len() - i,
    {
        let mut t = tasks[i].duplicate();
        t.group_occurrence = Some(id.clone());
        tagged.push(t);
        i = i + 1;
    }
    stages.push(Stage::Parallel { group, tasks: tagged });
    proof {
        assert(task_views(tagged@) =~= task_views(tasks@).map_values(
            |t: TaskPlanView| tag_task(t, idv),
        ));
        assert(stage_views(stages@) =~= close_group(
            stage_views(old(stages)@),
            group@,
            task_views(tasks@),
        ));
    }
}

pub open spec fn open_view(o: Option<(String, Vec<TaskPlan>)>) -> Option<(Seq<char>, Seq<TaskPlanView>)> {
    match o {
        Some((g, ts)) => Some((g@, task_views(ts@))),
        None => None,
    }
}

impl RunPlan {
    /// Builds the plan from parsed rules, preserving config order and group
    /// occurrence boundaries. Consecutive rules sharing the same `parallel`
    /// group form one occurrence; a serial rule, a different group name, or
    /// the end of the list closes the current occurrence (barrier).
    pub fn from_rules(rules: Vec<Rules>) -> (r: RunPlan)
        ensures
            r@ == from_rules_spec(crate::rules::rules_views(rules@)),
    {
        let ghost rv = crate::rules::rules_views(rules@);
        let mut stages: Vec<Stage> = Vec::new();
        let mut open_group: Option<(String, Vec<TaskPlan>)> = None;
        let mut position: usize = 0;
        while position < rules.len()
            invariant
                position <= rules@.len(),
                rv == crate::rules::rules_views(rules@),
                stage_views(stages@) == build(rv.take(position as int)).stages,
                open_view(open_group) == build(rv.take(position as int)).open,
            decreases rules@.len() - position,
        {
            proof {
                assert(rv.take(position + 1).drop_last() =~= rv.take(position as int));
                assert(rv.take(position + 1).last() == rv[position as int]);
                lemma_build_bounds(rv.take(position as int));
            }
            let rule = rules[position].duplicate();
            let plan = TaskPlan {
                name: rule.task_name(),
                position,
                commands: rule.command_lines(),
                parallel: rule.parallel(),
                group_occurrence: None,
                context: TaskContext { cwd: rule.cwd(), environment: rule.environment() },
                rule,
            };
            let ghost pv = plan@;
            assert(pv == task_from_rule(rv[position as int], position as int));
            match plan.parallel.clone() {
                Some(group) => {
                    let current = open_group;
                    match current {
                        Some((open_name, mut tasks)) => {
                            if group == open_name {
                                let ghost old_tasks = task_views(tasks@);
                                tasks.push(plan);
                                assert(task_views(tasks@) =~= old_tasks.push(pv));
                                open_group = Some((open_name, tasks));
                            } else {
                                close_group_exec(open_name, tasks, &mut stages);
                                let single = vec![plan];
                                assert(task_views(single@) =~= seq![pv]);
                                open_group = Some((group, single));
                            }
                        },
                        None => {
                            let single = vec![plan];
                            assert(task_views(single@) =~= seq![pv]);
                            open_group = Some((group, single));
                        },
                    }
                },
                None => {
                    let current = open_group;
                    match current {
                        Some((group, tasks)) => {
                            close_group_exec(group, tasks, &mut stages);
                        },
                        None => {},
                    }
                    stages.push(Stage::Serial(plan));
                    open_group = None;
                },
            }
            position = position + 1;
        }
        assert(rv.take(rules@.len() as int) =~= rv);
        proof {
            lemma_build_bounds(rv);
        }
        match open_group {
            Some((group, tasks)) => {
                close_group_exec(group, tasks, &mut stages);
            },
            None => {},
        }
        RunPlan { stages }
    }
}

// ---------------------------------------------------------------------------
// Filtering
// ---------------------------------------------------------------------------

/// The tasks at the positions marked `true`, in order.
pub open spec fn select<A>(items: Seq<A>, kept: Seq<bool>) -> Seq<A>
    decreases items.len(),
{
    if items.len() == 0 {
        Seq::empty()
    } else if kept.len() >= items.len() && kept[items.len() - 1] {
        select(items.drop_last(), kept).push(items.last())
    } else {
        select(items.drop_last(), kept)
    }
}

/// One stage after filtering with the per-task decisions `kept`: a serial
/// stage survives when its task is kept; a group occurrence survives, with
/// its kept tasks only, when at least one is kept.
pub open spec fn filter_stage(s: StageView, kept: Seq<bool>) -> Seq<StageView> {
    match s {
        StageView::Serial(t) => if kept.len() > 0 && kept[0] {
            seq![StageView::Serial(t)]
        } else {
            Seq::empty()
        },
        StageView::Parallel { group, tasks } => {
            let ts = select(tasks, kept);
            if ts.len() > 0 {
                seq![StageView::Parallel { group, tasks: ts }]
            } else {
                Seq::empty()
            }
        },
    }
}

/// All stages filtered with the per-stage decisions.
pub open spec fn filter_apply(stages: Seq<StageView>, kept: Seq<Seq<bool>>) -> Seq<StageView>
    decreases stages.len(),
{
    if stages.len() == 0 {
        Seq::empty()
    } else {
        filter_apply(stages.drop_last(), kept) + filter_stage(
            stages.last(),
            kept[stages.len() - 1],
        )
    }
}

/// Number of tasks of a stage.
pub open spec fn stage_len(s: Stage) -> int {
    match s {
        Stage::Serial(_) => 1,
        Stage::Parallel { tasks, .. } => tasks@.len() as int,
    }
}

/// The rule of the `j`-th task of a stage.
pub open spec fn rule_at(s: Stage, j: int) -> Rules {
    match s {
        Stage::Serial(t) => t.rule,
        Stage::Parallel { tasks, .. } => tasks@[j].rule,
    }
}

/// `kept` records, for every task of every stage, an answer the predicate
/// can give for the task's rule.
pub open spec fn decisions_of<F: Fn(&Rules) -> bool>(
    keep: F,
    stages: Seq<Stage>,
    kept: Seq<Seq<bool>>,
) -> bool {
    &&& kept.len() == stages.len()
    &&& forall|i: int|
        0 <= i < stages.len() ==> {
            &&& (#[trigger] kept[i]).len() == stage_len(stages[i])
            &&& forall|j: int|
                0 <= j < stage_len(stages[i]) ==> call_ensures(
                    keep,
                    (&rule_at(stages[i], j),),
                    kept[i][j],
                )
        }
}

fn filter_tasks<F: Fn(&Rules) -> bool>(tasks: &Vec<TaskPlan>, keep: &F) -> (r: (
    Vec<TaskPlan>,
    Ghost<Seq<bool>>,
))
    requires
        forall|rule: &Rules| call_requires(*keep, (rule,)),
    ensures
        r.1@.len() == tasks@.len(),
        forall|j: int|
            0 <= j < tasks@.len() ==> call_ensures(*keep, (&tasks@[j].rule,), #[trigger] r.1@[j]),
        task_views(r.0@) == select(task_views(tasks@), r.1@),
{
    let mut out: Vec<TaskPlan> = Vec::new();
    let ghost mut kept: Seq<bool> = Seq::empty();
    let mut j: usize = 0;
    while j < tasks.len()
        invariant
            j <= tasks@.len(),
            forall|rule: &Rules| call_requires(*keep, (rule,)),
            kept.len() == j,
            forall|k: int|
                0 <= k < j ==> call_ensures(*keep, (&tasks@[k].rule,), #[trigger] kept[k]),
            task_views(out@) == select(task_views(tasks@).take(j as int), kept),
        decreases tasks@.len() - j,
    {
        let b = keep(&tasks[j].rule);
        proof {
            lemma_select_extend(task_views(tasks@).take(j as int), kept, b);
            assert(task_views(tasks@).take(j + 1) =~= task_views(tasks@).take(j as int).push(
                tasks@[j as int]@,
            ));
            lemma_select_push(task_views(tasks@).take(j as int), tasks@[j as int]@, kept.push(b));
        }
        if b {
            out.push(tasks[j].duplicate());
        }
        proof {
            kept = kept.push(b);
            assert(task_views(out@) =~= select(task_views(tasks@).take(j + 1), kept));
        }
        j = j + 1;
    }
    assert(task_views(tasks@).take(tasks@.len() as int) =~= task_views(tasks@));
    (out, Ghost(kept))
}

/// Extending the decisions past the items does not change the selection.
pub proof fn lemma_select_extend<A>(items: Seq<A>, kept: Seq<bool>, b: bool)
    requires
        kept.len() == items.len(),
    ensures
        select(items, kept.push(b)) == select(items, kept),
{
    lemma_select_prefix(items, kept, kept.push(b));
}

/// Only the first `items.len()` decisions matter.
pub proof fn lemma_select_prefix<A>(items: Seq<A>, k1: Seq<bool>, k2: Seq<bool>)
    requires
        k1.len() >= items.len(),
        k2.len() >= items.len(),
        forall|i: int| 0 <= i < items.len() ==> k1[i] == k2[i],
    ensures
        select(items, k1) == select(items, k2),
    decreases items.len(),
{
    if items.len() > 0 {
        lemma_select_prefix(items.drop_last(), k1, k2);
    }
}

/// Selecting over one more item appends it exactly when it is kept.
pub proof fn lemma_select_push<A>(items: Seq<A>, x: A, kept: Seq<bool>)
    requires
        kept.len() == items.len() + 1,
    ensures
        select(items.push(x), kept) == if kept[items.len() as int] {
            select(items, kept).push(x)
        } else {
            select(items, kept)
        },
{
    assert(items.push(x).drop_last() =~= items);
}

impl RunPlan {
    /// Filters tasks by a keep predicate without merging originally separate
    /// group occurrences: unmatched tasks are skipped, but a serial task
    /// removed between two occurrences keeps them separate (the barrier is
    /// implicit in the plan structure).
    pub fn filter<F>(self, keep: F) -> (r: RunPlan) where F: Fn(&Rules) -> bool
        requires
            forall|rule: &Rules| call_requires(keep, (rule,)),
        ensures
            exists|kept: Seq<Seq<bool>>|
                decisions_of(keep, self.stages@, kept) && r@ == filter_apply(self@, kept),
    {
        let mut stages: Vec<Stage> = Vec::new();
        let ghost mut kept: Seq<Seq<bool>> = Seq::empty();
        let mut i: usize = 0;
        while i < self.stages.len()
            invariant
                i <= self.stages@.len(),
                forall|rule: &Rules| call_requires(keep, (rule,)),
                decisions_of(keep, self.stages@.take(i as int), kept),
                stage_views(stages@) == filter_apply(self@.take(i as int), kept),
            decreases self.stages@.len() - i,
        {
            let ghost piece: Seq<bool>;
            let ghost before = stage_views(stages@);
            match &self.stages[i] {
                Stage::Serial(plan) => {
                    let b = keep(&plan.rule);
                    if b {
                        stages.push(Stage::Serial(plan.duplicate()));
                    }
                    proof {
                        piece = seq![b];
                    }
                },
                Stage::Parallel { group, tasks } => {
                    let (kept_tasks, Ghost(decided)) = filter_tasks(tasks, &keep);
                    if kept_tasks.len() != 0 {
                        stages.push(Stage::Parallel { group: group.clone(), tasks: kept_tasks });
                    }
                    proof {
                        piece = decided;
                    }
                },
            }
            proof {
                let prefix = self.stages@.take(i as int);
                let next = self.stages@.take(i + 1);
                assert(next.drop_last() =~= prefix);
                assert(self@.take(i + 1).drop_last() =~= self@.take(i as int));
                assert(self@.take(i + 1).last() == self.stages@[i as int]@);
                let nk = kept.push(piece);
                assert(filter_apply(self@.take(i as int), nk) == filter_apply(
                    self@.take(i as int),
                    kept,
                )) by {
                    lemma_filter_apply_prefix(self@.take(i as int), kept, nk);
                }
                assert(stage_views(stages@) =~= before + filter_stage(
                    self.stages@[i as int]@,
                    piece,
                ));
                assert forall|k: int| 0 <= k < next.len() implies {
                    &&& (#[trigger] nk[k]).len() == stage_len(next[k])
                    &&& forall|j: int|
                        0 <= j < stage_len(next[k]) ==> call_ensures(
                            keep,
                            (&rule_at(next[k], j),),
                            nk[k][j],
                        )
                } by {
                    if k < i {
                        assert(next[k] == prefix[k]);
                        assert(nk[k] == kept[k]);
                    }
                }
                kept = nk;
            }
            i = i + 1;
        }
        assert(self@.take(self@.len() as int) =~= self@);
        assert(self.stages@.take(self.stages@.len() as int) =~= self.stages@);
        RunPlan { stages }
    }
}

/// Only the decisions of existing stages matter.
pub proof fn lemma_filter_apply_prefix(
    stages: Seq<StageView>,
    k1: Seq<Seq<bool>>,
    k2: Seq<Seq<bool>>,
)
    requires
        k1.len() >= stages.len(),
        k2.len() >= stages.len(),
        forall|i: int| 0 <= i < stages.len() ==> k1[i] == k2[i],
    ensures
        filter_apply(stages, k1) == filter_apply(stages, k2),
    decreases stages.len(),
{
    if stages.len() > 0 {
        lemma_filter_apply_prefix(stages.drop_last(), k1, k2);
    }
}

// ---------------------------------------------------------------------------
// Template expansion of a plan
// ---------------------------------------------------------------------------

/// The directory relative paths are computed against for a task: its own
/// working directory when set, otherwise the options' current directory.
pub open spec fn task_dir(t: TaskPlanView, opts: TemplateOptions) -> Seq<char> {
    match t.cwd {
        Some(c) => c,
        None => opts.current_dir@,
    }
}

/// A task with its commands expanded, and the unknown variables reported.
pub open spec fn expand_task_spec(t: TaskPlanView, opts: TemplateOptions) -> (
    TaskPlanView,
    Seq<Seq<char>>,
) {
    let e = expand_lines(t.commands, filepath_of(opts), paths_of(opts), task_dir(t, opts));
    (TaskPlanView { commands: e.0, ..t }, e.1)
}

pub open spec fn expand_tasks_spec(ts: Seq<TaskPlanView>, opts: TemplateOptions) -> (
    Seq<TaskPlanView>,
    Seq<Seq<char>>,
)
    decreases ts.len(),
{
    if ts.len() == 0 {
        (Seq::empty(), Seq::empty())
    } else {
        let prev = expand_tasks_spec(ts.drop_last(), opts);
        let last = expand_task_spec(ts.last(), opts);
        (prev.0.push(last.0), prev.1 + last.1)
    }
}

pub open spec fn expand_stage_spec(s: StageView, opts: TemplateOptions) -> (
    StageView,
    Seq<Seq<char>>,
) {
    match s {
        StageView::Serial(t) => {
            let e = expand_task_spec(t, opts);
            (StageView::Serial(e.0), e.1)
        },
        StageView::Parallel { group, tasks } => {
            let e = expand_tasks_spec(tasks, opts);
            (StageView::Parallel { group, tasks: e.0 }, e.1)
        },
    }
}

pub open spec fn expand_plan_spec(stages: Seq<StageView>, opts: TemplateOptions) -> (
    Seq<StageView>,
    Seq<Seq<char>>,
)
    decreases stages.len(),
{
    if stages.len() == 0 {
        (Seq::empty(), Seq::empty())
    } else {
        let prev = expand_plan_spec(stages.drop_last(), opts);
        let last = expand_stage_spec(stages.last(), opts);
        (prev.0.push(last.0), prev.1 + last.1)
    }
}

impl TaskPlan {
    /// Expands template variables in the commands of the task for the given
    /// path options, returning the expanded commands and any unknown
    /// variables. Relative paths are computed against the task's own
    /// working directory when it has one.
    pub fn expand(&self, opts: &TemplateOptions) -> (r: (Vec<CommandLine>, Vec<String>))
        ensures
            line_views(r.0@) == expand_task_spec(self@, *opts).0.commands,
            views(r.1@) == expand_task_spec(self@, *opts).1,
    {
        let mut unknown: Vec<String> = Vec::new();
        let mut task_options = opts.duplicate();
        match &self.context.cwd {
            Some(cwd) => {
                task_options.current_dir = cwd.clone();
            },
            None => {},
        }
        let ghost fp = filepath_of(*opts);
        let ghost ps = paths_of(*opts);
        let ghost dir = task_dir(self@, *opts);
        let ghost lines = self@.commands;
        let mut expanded: Vec<CommandLine> = Vec::new();
        let mut i: usize = 0;
        while i < self.commands.len()
            invariant
                i <= self.commands@.len(),
                lines == line_views(self.commands@),
                filepath_of(task_options) == fp,
                paths_of(task_options) == ps,
                task_options.current_dir@ == dir,
                line_views(expanded@) == expand_lines(lines.take(i as int), fp, ps, dir).0,
                views(unknown@) == expand_lines(lines.take(i as int), fp, ps, dir).1,
            decreases self.commands@.len() - i,
        {
            let out = template_line(self.commands[i].duplicate(), task_options.duplicate());
            let ghost before = views(unknown@);
            extend_strings(&mut unknown, &out.unknown_variables);
            expanded.push(out.command);
            proof {
                assert(lines.take(i + 1).drop_last() =~= lines.take(i as int));
                assert(lines.take(i + 1).last() == self.commands@[i as int]@);
                assert(line_views(expanded@) =~= expand_lines(lines.take(i + 1), fp, ps, dir).0);
                assert(views(unknown@) =~= before + views(out.unknown_variables@));
            }
            i = i + 1;
        }
        assert(lines.take(self.commands@.len() as int) =~= lines);
        (expanded, unknown)
    }

    fn expand_into(&self, opts: &TemplateOptions, unknown: &mut Vec<String>) -> (r: TaskPlan)
        ensures
            r@ == expand_task_spec(self@, *opts).0,
            views(final(unknown)@) == views(old(unknown)@) + expand_task_spec(self@, *opts).1,
    {
        let (commands, task_unknown) = self.expand(opts);
        extend_strings(unknown, &task_unknown);
        let mut expanded = self.duplicate();
        expanded.commands = commands;
        expanded
    }
}

impl RunPlan {
    /// Expands every task without flattening stages or group barriers.
    pub fn expand(&self, opts: &TemplateOptions) -> (r: (RunPlan, Vec<String>))
        ensures
            r.0@ == expand_plan_spec(self@, *opts).0,
            views(r.1@) == expand_plan_spec(self@, *opts).1,
    {
        let mut unknown: Vec<String> = Vec::new();
        let mut stages: Vec<Stage> = Vec::new();
        let mut i: usize = 0;
        while i < self.stages.len()
            invariant
                i <= self.stages@.len(),
                stage_views(stages@) == expand_plan_spec(self@.take(i as int), *opts).0,
                views(unknown@) == expand_plan_spec(self@.take(i as int), *opts).1,
            decreases self.stages@.len() - i,
        {
            let ghost before = views(unknown@);
            match &self.stages[i] {
                Stage::Serial(task) => {
                    let e = task.expand_into(opts, &mut unknown);
                    stages.push(Stage::Serial(e));
                },
                Stage::Parallel { group, tasks } => {
                    let mut expanded: Vec<TaskPlan> = Vec::new();
                    let mut j: usize = 0;
                    while j < tasks.len()
                        invariant
                            j <= tasks@.len(),
                            task_views(expanded@) == expand_tasks_spec(
                                task_views(tasks@).take(j as int),
                                *opts,
                            ).0,
                            views(unknown@) == before + expand_tasks_spec(
                                task_views(tasks@).take(j as int),
                                *opts,
                            ).1,
                        decreases tasks@.len() - j,
                    {
                        let e = tasks[j].expand_into(opts, &mut unknown);
                        expanded.push(e);
                        proof {
                            let tv = task_views(tasks@);
                            assert(tv.take(j + 1).drop_last() =~= tv.take(j as int));
                            assert(tv.take(j + 1).last() == tasks@[j as int]@);
                            assert(task_views(expanded@) =~= expand_tasks_spec(
                                tv.take(j + 1),
                                *opts,
                            ).0);
                        }
                        j = j + 1;
                    }
                    assert(task_views(tasks@).take(tasks@.len() as int) =~= task_views(tasks@));
                    stages.push(Stage::Parallel { group: group.clone(), tasks: expanded });
                },
            }
            proof {
                assert(self@.take(i + 1).drop_last() =~= self@.take(i as int));
                assert(self@.take(i + 1).last() == self.stages@[i as int]@);
                assert(stage_views(stages@) =~= expand_plan_spec(self@.take(i + 1), *opts).0);
            }
            i = i + 1;
        }
        assert(self@.take(self@.len() as int) =~= self@);
        (RunPlan { stages }, unknown)
    }
}

// ---------------------------------------------------------------------------
// Working directories
// ---------------------------------------------------------------------------

/// A relative path has a `..` component.
pub open spec fn has_parent_component(p: Seq<char>) -> bool {
    exists|i: int| 0 <= i < split(p, "/"@).len() && split(p, "/"@)[i] == ".."@
}

/// `root.join(rel)` for a relative `rel` (as `Path::join`).
pub open spec fn join_path(root: Seq<char>, rel: Seq<char>) -> Seq<char> {
    if root.len() == 0 {
        rel
    } else if root.last() == '/' {
        root + rel
    } else {
        root + "/"@ + rel
    }
}

/// One task with its working directory resolved against the workspace
/// root, or the error that rejects it.
pub open spec fn resolve_task_spec(t: TaskPlanView, root: Seq<char>) -> Result<
    TaskPlanView,
    Seq<char>,
> {
    match t.cwd {
        None => Ok(TaskPlanView { cwd: Some(root), ..t }),
        Some(c) => if starts_with(c, "/"@) {
            Err("Task '"@ + t.name + "' cwd must be relative to workspace root: "@ + c)
        } else if has_parent_component(c) {
            Err("Task '"@ + t.name + "' cwd cannot escape workspace root: "@ + c)
        } else {
            Ok(TaskPlanView { cwd: Some(join_path(root, c)), ..t })
        },
    }
}

pub open spec fn resolve_tasks_spec(ts: Seq<TaskPlanView>, root: Seq<char>) -> Result<
    Seq<TaskPlanView>,
    Seq<char>,
>
    decreases ts.len(),
{
    if ts.len() == 0 {
        Ok(Seq::empty())
    } else {
        match resolve_tasks_spec(ts.drop_last(), root) {
            Err(e) => Err(e),
            Ok(prev) => match resolve_task_spec(ts.last(), root) {
                Err(e) => Err(e),
                Ok(t) => Ok(prev.push(t)),
            },
        }
    }
}

pub open spec fn resolve_stage_spec(s: StageView, root: Seq<char>) -> Result<StageView, Seq<char>> {
    match s {
        StageView::Serial(t) => match resolve_task_spec(t, root) {
            Ok(r) => Ok(StageView::Serial(r)),
            Err(e) => Err(e),
        },
        StageView::Parallel { group, tasks } => match resolve_tasks_spec(tasks, root) {
            Ok(r) => Ok(StageView::Parallel { group, tasks: r }),
            Err(e) => Err(e),
        },
    }
}

/// Every task's working directory resolved, or the first task's error.
pub open spec fn resolve_plan_spec(stages: Seq<StageView>, root: Seq<char>) -> Result<
    Seq<StageView>,
    Seq<char>,
>
    decreases stages.len(),
{
    if stages.len() == 0 {
        Ok(Seq::empty())
    } else {
        match resolve_plan_spec(stages.drop_last(), root) {
            Err(e) => Err(e),
            Ok(prev) => match resolve_stage_spec(stages.last(), root) {
                Err(e) => Err(e),
                Ok(s) => Ok(prev.push(s)),
            },
        }
    }
}

fn has_parent_component_exec(p: &String) -> (r: bool)
    ensures
        r == has_parent_component(p@),
{
    let chars = to_chars(p.as_str());
    let slash = to_chars("/");
    let dots = to_chars("..");
    proof {
        reveal_strlit("/");
        reveal_strlit("..");
    }
    let pieces = split_exec(&chars, &slash);
    let mut i: usize = 0;
    while i < pieces.len()
        invariant
            i <= pieces@.len(),
            chars@ == p@,
            slash@ == "/"@,
            dots@ == ".."@,
            pieces@.len() == split(chars@, slash@).len(),
            forall|k: int| 0 <= k < pieces@.len() ==> #[trigger] pieces@[k]@ == split(chars@, slash@)[k],
            forall|k: int| 0 <= k < i ==> split(chars@, slash@)[k] != dots@,
        decreases pieces@.len() - i,
    {
        if chars_eq(&pieces[i], &dots) {
            assert(chars@ == p@);
            assert(slash@ == "/"@);
            assert(split(chars@, slash@)[i as int] == dots@);
            assert(0 <= i < split(p@, "/"@).len() && split(p@, "/"@)[i as int] == ".."@);
            return true;
        }
        i = i + 1;
    }
    false
}

fn join_path_exec(root: &String, rel: &String) -> (r: String)
    ensures
        r@ == join_path(root@, rel@),
{
    let rc = to_chars(root.as_str());
    let mut out = root.clone();
    if rc.len() == 0 {
        return rel.clone();
    }
    if rc[rc.len() - 1] != '/' {
        out.append("/");
    }
    out.append(rel.as_str());
    out
}

fn resolve_task(task: &TaskPlan, workspace_root: &String) -> (r: Result<TaskPlan, String>)
    ensures
        match (r, resolve_task_spec(task@, workspace_root@)) {
            (Ok(a), Ok(b)) => a@ == b,
            (Err(a), Err(b)) => a@ == b,
            _ => false,
        },
{
    let mut resolved = task.duplicate();
    match &task.context.cwd {
        None => {
            resolved.context.cwd = Some(workspace_root.clone());
            Ok(resolved)
        },
        Some(cwd) => {
            let cc = to_chars(cwd.as_str());
            let slash = to_chars("/");
            if starts_with_exec(&cc, &slash) {
                let mut m = owned("Task '");
                m.append(task.name.as_str());
                m.append("' cwd must be relative to workspace root: ");
                m.append(cwd.as_str());
                Err(m)
            } else if has_parent_component_exec(cwd) {
                let mut m = owned("Task '");
                m.append(task.name.as_str());
                m.append("' cwd cannot escape workspace root: ");
                m.append(cwd.as_str());
                Err(m)
            } else {
                resolved.context.cwd = Some(join_path_exec(workspace_root, cwd));
                Ok(resolved)
            }
        },
    }
}

fn resolve_tasks(tasks: &Vec<TaskPlan>, workspace_root: &String) -> (r: Result<
    Vec<TaskPlan>,
    String,
>)
    ensures
        match (r, resolve_tasks_spec(task_views(tasks@), workspace_root@)) {
            (Ok(a), Ok(b)) => task_views(a@) == b,
            (Err(a), Err(b)) => a@ == b,
            _ => false,
        },
{
    let mut resolved: Vec<TaskPlan> = Vec::new();
    let mut j: usize = 0;
    assert(task_views(tasks@).take(0) =~= Seq::<TaskPlanView>::empty());
    assert(task_views(resolved@) =~= Seq::<TaskPlanView>::empty());
    while j < tasks.len()
        invariant
            j <= tasks@.len(),
            resolve_tasks_spec(task_views(tasks@).take(j as int), workspace_root@) == Ok::<
                Seq<TaskPlanView>,
                Seq<char>,
            >(task_views(resolved@)),
        decreases tasks@.len() - j,
    {
        proof {
            let tv = task_views(tasks@);
            assert(tv.take(j + 1).drop_last() =~= tv.take(j as int));
            assert(tv.take(j + 1).last() == tasks@[j as int]@);
        }
        match resolve_task(&tasks[j], workspace_root) {
            Ok(t) => {
                resolved.push(t);
                assert(task_views(resolved@) =~= resolve_tasks_spec(
                    task_views(tasks@).take(j + 1),
                    workspace_root@,
                )->Ok_0);
            },
            Err(e) => {
                proof {
                    assert(task_views(tasks@)[j as int] == tasks@[j as int]@);
                    lemma_resolve_tasks_err(task_views(tasks@), j as int, workspace_root@);
                }
                return Err(e);
            },
        }
        j = j + 1;
    }
    assert(task_views(tasks@).take(tasks@.len() as int) =~= task_views(tasks@));
    Ok(resolved)
}

impl RunPlan {
    /// Resolves every task cwd against the injected workspace root.
    /// Absolute paths and any `..` component are rejected, so tasks cannot
    /// escape the workspace lexically; filesystem containment (symlinks) and
    /// existence are checked by the caller's adapter before spawning.
    pub fn resolve_context(&self, root: &str) -> (r: Result<RunPlan, String>)
        ensures
            match (r, resolve_plan_spec(self@, root@)) {
                (Ok(a), Ok(b)) => a@ == b,
                (Err(a), Err(b)) => a@ == b,
                _ => false,
            },
    {
        let workspace_root = owned(root);
        let mut stages: Vec<Stage> = Vec::new();
        let mut i: usize = 0;
        assert(self@.take(0) =~= Seq::<StageView>::empty());
        assert(stage_views(stages@) =~= Seq::<StageView>::empty());
        while i < self.stages.len()
            invariant
                i <= self.stages@.len(),
                workspace_root@ == root@,
                resolve_plan_spec(self@.take(i as int), workspace_root@) == Ok::<
                    Seq<StageView>,
                    Seq<char>,
                >(stage_views(stages@)),
            decreases self.stages@.len() - i,
        {
            proof {
                assert(self@.take(i + 1).drop_last() =~= self@.take(i as int));
                assert(self@.take(i + 1).last() == self.stages@[i as int]@);
            }
            match &self.stages[i] {
                Stage::Serial(task) => {
                    match resolve_task(task, &workspace_root) {
                        Ok(t) => {
                            stages.push(Stage::Serial(t));
                        },
                        Err(e) => {
                            proof {
                                assert(self@[i as int] == self.stages@[i as int]@);
                                lemma_resolve_plan_err(self@, i as int, workspace_root@);
                            }
                            return Err(e);
                        },
                    }
                },
                Stage::Parallel { group, tasks } => {
                    match resolve_tasks(tasks, &workspace_root) {
                        Ok(resolved) => {
                            stages.push(Stage::Parallel { group: group.clone(), tasks: resolved });
                        },
                        Err(e) => {
                            proof {
                                assert(self@[i as int] == self.stages@[i as int]@);
                                lemma_resolve_plan_err(self@, i as int, workspace_root@);
                            }
                            return Err(e);
                        },
                    }
                },
            }
            assert(stage_views(stages@) =~= resolve_plan_spec(
                self@.take(i + 1),
                workspace_root@,
            )->Ok_0);
            i = i + 1;
        }
        assert(self@.take(self@.len() as int) =~= self@);
        Ok(RunPlan { stages })
    }
}

/// An error at task `j` of a task list is the list's error.
pub proof fn lemma_resolve_tasks_err(ts: Seq<TaskPlanView>, j: int, root: Seq<char>)
    requires
        0 <= j < ts.len(),
        resolve_tasks_spec(ts.take(j), root) is Ok,
        resolve_task_spec(ts[j], root) is Err,
    ensures
        resolve_tasks_spec(ts, root) == Err::<Seq<TaskPlanView>, Seq<char>>(
            resolve_task_spec(ts[j], root)->Err_0,
        ),
    decreases ts.len(),
{
    if j == ts.len() - 1 {
        assert(ts.drop_last() =~= ts.take(j));
    } else {
        assert(ts.drop_last().take(j) =~= ts.take(j));
        lemma_resolve_tasks_err(ts.drop_last(), j, root);
    }
}

/// An error at stage `i` is the plan's error.
pub proof fn lemma_resolve_plan_err(stages: Seq<StageView>, i: int, root: Seq<char>)
    requires
        0 <= i < stages.len(),
        resolve_plan_spec(stages.take(i), root) is Ok,
        resolve_stage_spec(stages[i], root) is Err,
    ensures
        resolve_plan_spec(stages, root) == Err::<Seq<StageView>, Seq<char>>(
            resolve_stage_spec(stages[i], root)->Err_0,
        ),
    decreases stages.len(),
{
    if i == stages.len() - 1 {
        assert(stages.drop_last() =~= stages.take(i));
    } else {
        assert(stages.drop_last().take(i) =~= stages.take(i));
        lemma_resolve_plan_err(stages.drop_last(), i, root);
    }
}

impl Default for RunPlan {
    fn default() -> (r: RunPlan)
        ensures
            r@.len() == 0,
    {
        RunPlan { stages: Vec::new() }
    }
}

// ---------------------------------------------------------------------------
// Outcomes
// ---------------------------------------------------------------------------

pub enum TaskOutcomeView {
    Passed,
    Failed(Seq<Seq<char>>),
    Cancelled,
    Skipped,
}

impl View for TaskOutcome {
    type V = TaskOutcomeView;

    open spec fn view(&self) -> TaskOutcomeView {
        match self {
            TaskOutcome::Passed => TaskOutcomeView::Passed,
            TaskOutcome::Failed { failures } => TaskOutcomeView::Failed(views(failures@)),
            TaskOutcome::Cancelled => TaskOutcomeView::Cancelled,
            TaskOutcome::Skipped => TaskOutcomeView::Skipped,
        }
    }
}

/// Models of the (task, outcome) pairs of a run.
pub open spec fn outcome_views(v: Seq<(String, TaskOutcome)>) -> Seq<(Seq<char>, TaskOutcomeView)> {
    v.map_values(|p: (String, TaskOutcome)| (p.0@, p.1@))
}

impl View for RunOutcome {
    type V = Seq<(Seq<char>, TaskOutcomeView)>;

    open spec fn view(&self) -> Seq<(Seq<char>, TaskOutcomeView)> {
        outcome_views(self.tasks@)
    }
}

/// Every task passed.
pub open spec fn is_success_spec(ts: Seq<(Seq<char>, TaskOutcomeView)>) -> bool {
    forall|i: int| 0 <= i < ts.len() ==> (#[trigger] ts[i]).1 is Passed
}

/// Some task failed.
pub open spec fn has_failures_spec(ts: Seq<(Seq<char>, TaskOutcomeView)>) -> bool {
    exists|i: int| 0 <= i < ts.len() && (#[trigger] ts[i]).1 is Failed
}

/// Some task was cancelled.
pub open spec fn is_cancelled_spec(ts: Seq<(Seq<char>, TaskOutcomeView)>) -> bool {
    exists|i: int| 0 <= i < ts.len() && (#[trigger] ts[i]).1 is Cancelled
}

/// The failure messages of one task, each prefixed with its name.
pub open spec fn task_failures(p: (Seq<char>, TaskOutcomeView)) -> Seq<Seq<char>> {
    match p.1 {
        TaskOutcomeView::Failed(fs) => fs.map_values(|f: Seq<char>| p.0 + ": "@ + f),
        _ => Seq::empty(),
    }
}

/// All failure messages across tasks, in plan order.
pub open spec fn failures_spec(ts: Seq<(Seq<char>, TaskOutcomeView)>) -> Seq<Seq<char>> {
    concat_all(ts.map_values(|p: (Seq<char>, TaskOutcomeView)| task_failures(p)))
}

impl RunOutcome {
    /// The overall outcome from per-task outcomes in plan order.
    pub fn from_task_outcomes(outcomes: Vec<(String, TaskOutcome)>) -> (r: RunOutcome)
        ensures
            r@ == outcome_views(outcomes@),
    {
        RunOutcome { tasks: outcomes }
    }

    /// True when every recorded task passed (no failures, no cancellation).
    pub fn is_success(&self) -> (r: bool)
        ensures
            r == is_success_spec(self@),
    {
        let mut i: usize = 0;
        while i < self.tasks.len()
            invariant
                i <= self.tasks@.len(),
                forall|k: int| 0 <= k < i ==> (#[trigger] self@[k]).1 is Passed,
            decreases self.tasks@.len() - i,
        {
            match &self.tasks[i].1 {
                TaskOutcome::Passed => {},
                _ => {
                    assert(!(self@[i as int].1 is Passed));
                    return false;
                },
            }
            i = i + 1;
        }
        true
    }

    /// True when at least one task failed.
    pub fn has_failures(&self) -> (r: bool)
        ensures
            r == has_failures_spec(self@),
    {
        let mut i: usize = 0;
        while i < self.tasks.len()
            invariant
                i <= self.tasks@.len(),
                forall|k: int| 0 <= k < i ==> !((#[trigger] self@[k]).1 is Failed),
            decreases self.tasks@.len() - i,
        {
            match &self.tasks[i].1 {
                TaskOutcome::Failed { .. } => {
                    assert(self@[i as int].1 is Failed);
                    return true;
                },
                _ => {},
            }
            i = i + 1;
        }
        false
    }

    /// True when the run was cancelled (restart replacement), even if some
    /// tasks had already passed.
    pub fn is_cancelled(&self) -> (r: bool)
        ensures
            r == is_cancelled_spec(self@),
    {
        let mut i: usize = 0;
        while i < self.tasks.len()
            invariant
                i <= self.tasks@.len(),
                forall|k: int| 0 <= k < i ==> !((#[trigger] self@[k]).1 is Cancelled),
            decreases self.tasks@.len() - i,
        {
            match &self.tasks[i].1 {
                TaskOutcome::Cancelled => {
                    assert(self@[i as int].1 is Cancelled);
                    return true;
                },
                _ => {},
            }
            i = i + 1;
        }
        false
    }

    /// All failure messages across tasks, in plan order.
    pub fn failures(&self) -> (r: Vec<String>)
        ensures
            views(r@) == failures_spec(self@),
    {
        let ghost parts = self@.map_values(|p: (Seq<char>, TaskOutcomeView)| task_failures(p));
        let mut out: Vec<String> = Vec::new();
        let mut i: usize = 0;
        while i < self.tasks.len()
            invariant
                i <= self.tasks@.len(),
                parts == self@.map_values(|p: (Seq<char>, TaskOutcomeView)| task_failures(p)),
                views(out@) == concat_all(parts.take(i as int)),
            decreases self.tasks@.len() - i,
        {
            let ghost before = views(out@);
            let name = &self.tasks[i].0;
            match &self.tasks[i].1 {
                TaskOutcome::Failed { failures } => {
                    let mut j: usize = 0;
                    while j < failures.len()
                        invariant
                            j <= failures@.len(),
                            views(out@) == before + views(failures@).take(j as int).map_values(
                                |f: Seq<char>| name@ + ": "@ + f,
                            ),
                        decreases failures@.len() - j,
                    {
                        let mut m = name.clone();
                        m.append(": ");
                        m.append(failures[j].as_str());
                        let ghost prev = views(out@);
                        out.push(m);
                        proof {
                            let g = |f: Seq<char>| name@ + ": "@ + f;
                            let vf = views(failures@);
                            assert(vf.take(j + 1).map_values(g) =~= vf.take(j as int).map_values(
                                g,
                            ).push(g(vf[j as int])));
                            assert(views(out@) =~= prev.push(m@));
                        }
                        j = j + 1;
                    }
                    assert(views(failures@).take(failures@.len() as int) =~= views(failures@));
                },
                _ => {
                    assert(views(out@) =~= before + Seq::<Seq<char>>::empty());
                },
            }
            proof {
                assert(parts.take(i + 1).drop_last() =~= parts.take(i as int));
                assert(parts.take(i + 1).last() == task_failures(self@[i as int]));
            }
            i = i + 1;
        }
        assert(parts.take(self@.len() as int) =~= parts);
        out
    }
}

// ---------------------------------------------------------------------------
// Laws
// ---------------------------------------------------------------------------

/// Commands of a task list, in order.
pub open spec fn tasks_cmds(ts: Seq<TaskPlanView>) -> Seq<CommandSpec> {
    concat_all(ts.map_values(|t: TaskPlanView| t.commands))
}

/// Commands of the open group of a plan under construction.
pub open spec fn open_cmds(o: Option<(Seq<char>, Seq<TaskPlanView>)>) -> Seq<CommandSpec> {
    match o {
        Some((g, ts)) => tasks_cmds(ts),
        None => Seq::empty(),
    }
}

/// Names of the open group of a plan under construction.
pub open spec fn open_names(o: Option<(Seq<char>, Seq<TaskPlanView>)>) -> Seq<Seq<char>> {
    match o {
        Some((g, ts)) => ts.map_values(|t: TaskPlanView| t.name),
        None => Seq::empty(),
    }
}

proof fn lemma_close_group_keeps(stages: Seq<StageView>, g: Seq<char>, ts: Seq<TaskPlanView>)
    ensures
        plan_commands(close_group(stages, g, ts)) == plan_commands(stages) + tasks_cmds(ts),
        plan_names(close_group(stages, g, ts)) == plan_names(stages) + ts.map_values(
            |t: TaskPlanView| t.name,
        ),
{
    let id = occurrence_id(g, occurrences(stages, g) + 1);
    let tagged = ts.map_values(|t: TaskPlanView| tag_task(t, id));
    lemma_plan_push(stages, StageView::Parallel { group: g, tasks: tagged });
    assert(tagged.map_values(|t: TaskPlanView| t.commands) =~= ts.map_values(
        |t: TaskPlanView| t.commands,
    ));
    assert(tagged.map_values(|t: TaskPlanView| t.name) =~= ts.map_values(
        |t: TaskPlanView| t.name,
    ));
}

proof fn lemma_close_open_keeps(b: Building)
    ensures
        plan_commands(close_open(b)) == plan_commands(b.stages) + open_cmds(b.open),
        plan_names(close_open(b)) == plan_names(b.stages) + open_names(b.open),
{
    match b.open {
        Some((g, ts)) => lemma_close_group_keeps(b.stages, g, ts),
        None => {
            assert(plan_commands(b.stages) + open_cmds(b.open) =~= plan_commands(b.stages));
            assert(plan_names(b.stages) + open_names(b.open) =~= plan_names(b.stages));
        },
    }
}

proof fn lemma_build_keeps(rules: Seq<RulesView>)
    ensures
        plan_commands(build(rules).stages) + open_cmds(build(rules).open) == concat_all(
            rules.map_values(|r: RulesView| command_lines_spec(r)),
        ),
        plan_names(build(rules).stages) + open_names(build(rules).open) == rules.map_values(
            |r: RulesView| r.name,
        ),
    decreases rules.len(),
{
    let f = |r: RulesView| command_lines_spec(r);
    let h = |r: RulesView| r.name;
    if rules.len() == 0 {
        assert(plan_tasks(Seq::<StageView>::empty()) =~= Seq::<TaskPlanView>::empty());
        assert(plan_commands(Seq::<StageView>::empty()) =~= Seq::<CommandSpec>::empty());
        assert(plan_names(Seq::<StageView>::empty()) =~= Seq::<Seq<char>>::empty());
        assert(rules.map_values(f) =~= Seq::<Seq<CommandSpec>>::empty());
        assert(rules.map_values(h) =~= Seq::<Seq<char>>::empty());
    } else {
        let prev = rules.drop_last();
        lemma_build_keeps(prev);
        let b = build(prev);
        let t = task_from_rule(rules.last(), rules.len() - 1);
        assert(rules.map_values(f) =~= prev.map_values(f).push(t.commands));
        lemma_concat_all_push(prev.map_values(f), t.commands);
        assert(rules.map_values(h) =~= prev.map_values(h).push(t.name));
        let g_tc = |x: TaskPlanView| x.commands;
        let g_tn = |x: TaskPlanView| x.name;
        match t.parallel {
            Some(g) => {
                match b.open {
                    Some((og, ts)) => {
                        if g == og {
                            assert(ts.push(t).map_values(g_tc) =~= ts.map_values(g_tc).push(
                                t.commands,
                            ));
                            lemma_concat_all_push(ts.map_values(g_tc), t.commands);
                            assert(ts.push(t).map_values(g_tn) =~= ts.map_values(g_tn).push(
                                t.name,
                            ));
                        } else {
                            lemma_close_open_keeps(b);
                            assert(seq![t].map_values(g_tc) =~= seq![t.commands]);
                            lemma_concat_all_push(Seq::<Seq<CommandSpec>>::empty(), t.commands);
                            assert(seq![t.commands] =~= Seq::<Seq<CommandSpec>>::empty().push(
                                t.commands,
                            ));
                            assert(seq![t].map_values(g_tn) =~= seq![t.name]);
                        }
                    },
                    None => {
                        assert(seq![t].map_values(g_tc) =~= seq![t.commands]);
                        lemma_concat_all_push(Seq::<Seq<CommandSpec>>::empty(), t.commands);
                        assert(seq![t.commands] =~= Seq::<Seq<CommandSpec>>::empty().push(
                            t.commands,
                        ));
                        assert(seq![t].map_values(g_tn) =~= seq![t.name]);
                    },
                }
            },
            None => {
                lemma_close_open_keeps(b);
                lemma_plan_push(close_open(b), StageView::Serial(t));
                assert(seq![t].map_values(g_tc) =~= seq![t.commands]);
                lemma_concat_all_push(Seq::<Seq<CommandSpec>>::empty(), t.commands);
                assert(seq![t.commands] =~= Seq::<Seq<CommandSpec>>::empty().push(t.commands));
                assert(seq![t].map_values(g_tn) =~= seq![t.name]);
            },
        }
    }
}

/// Running a plan built from rules with a concurrency of one executes
/// exactly the flat list of the rules' command lines, in configuration
/// order, and keeps every task's identity in that order.
pub proof fn law_plan_preserves_rule_order(rules: Seq<RulesView>)
    ensures
        plan_commands(from_rules_spec(rules)) == concat_all(
            rules.map_values(|r: RulesView| command_lines_spec(r)),
        ),
        plan_names(from_rules_spec(rules)) == rules.map_values(|r: RulesView| r.name),
{
    lemma_build_keeps(rules);
    lemma_close_open_keeps(build(rules));
}

proof fn lemma_select_subset<A>(items: Seq<A>, kept: Seq<bool>, x: A)
    ensures
        select(items, kept).contains(x) ==> items.contains(x),
    decreases items.len(),
{
    if items.len() > 0 {
        let init = items.drop_last();
        lemma_select_subset(init, kept, x);
        if select(items, kept).contains(x) && !init.contains(x) {
            if kept.len() >= items.len() && kept[items.len() - 1] {
                let s = select(init, kept);
                let k = choose|k: int| 0 <= k < s.push(items.last()).len() && s.push(items.last())[k] == x;
                if k < s.len() {
                    assert(s.contains(x));
                }
                assert(items[items.len() - 1] == x);
            }
        }
        if init.contains(x) {
            let k = choose|k: int| 0 <= k < init.len() && init[k] == x;
            assert(items[k] == x);
        }
    }
}

proof fn lemma_plan_tasks_append(a: Seq<StageView>, b: Seq<StageView>)
    ensures
        plan_tasks(a + b) == plan_tasks(a) + plan_tasks(b),
{
    let f = |s: StageView| stage_tasks_spec(s);
    assert((a + b).map_values(f) =~= a.map_values(f) + b.map_values(f));
    lemma_concat_all_append(a.map_values(f), b.map_values(f));
}

/// Filtering never merges or renumbers anything: it yields at most one
/// stage per stage, and every task it keeps is a task of the plan, with the
/// same identity and group occurrence.
pub proof fn law_filter_keeps_task_identity(stages: Seq<StageView>, kept: Seq<Seq<bool>>, t: TaskPlanView)
    ensures
        filter_apply(stages, kept).len() <= stages.len(),
        plan_tasks(filter_apply(stages, kept)).contains(t) ==> plan_tasks(stages).contains(t),
    decreases stages.len(),
{
    if stages.len() > 0 {
        let init = stages.drop_last();
        let last = stages.last();
        let part = filter_stage(last, kept[stages.len() - 1]);
        law_filter_keeps_task_identity(init, kept, t);
        lemma_plan_tasks_append(filter_apply(init, kept), part);
        assert(stages =~= init.push(last));
        lemma_plan_push(init, last);
        let own = stage_tasks_spec(last);
        if plan_tasks(part).contains(t) {
            match last {
                StageView::Serial(x) => {
                    assert(part =~= seq![StageView::Serial(x)] || part =~= Seq::<StageView>::empty());
                    if part.len() == 1 {
                        assert(part == seq![StageView::Serial(x)]);
                        assert(part =~= Seq::<StageView>::empty().push(StageView::Serial(x)));
                        lemma_plan_push(Seq::<StageView>::empty(), StageView::Serial(x));
                        assert(plan_tasks(Seq::<StageView>::empty()) =~= Seq::<TaskPlanView>::empty());
                        assert(plan_tasks(part) =~= seq![x]);
                    } else {
                        assert(plan_tasks(part) =~= Seq::<TaskPlanView>::empty());
                    }
                    assert(own == seq![x]);
                },
                StageView::Parallel { group, tasks } => {
                    let ts = select(tasks, kept[stages.len() - 1]);
                    if ts.len() > 0 {
                        let st = StageView::Parallel { group, tasks: ts };
                        assert(part =~= Seq::<StageView>::empty().push(st));
                        lemma_plan_push(Seq::<StageView>::empty(), st);
                        assert(plan_tasks(Seq::<StageView>::empty()) =~= Seq::<TaskPlanView>::empty());
                        assert(plan_tasks(part) =~= ts);
                        lemma_select_subset(tasks, kept[stages.len() - 1], t);
                    } else {
                        assert(part =~= Seq::<StageView>::empty());
                        assert(plan_tasks(part) =~= Seq::<TaskPlanView>::empty());
                    }
                },
            }
        }
        let fa = plan_tasks(filter_apply(init, kept));
        if (fa + plan_tasks(part)).contains(t) {
            let k = choose|k: int| 0 <= k < (fa + plan_tasks(part)).len() && (fa + plan_tasks(part))[k] == t;
            if k < fa.len() {
                assert(fa.contains(t));
                let m = choose|m: int| 0 <= m < plan_tasks(init).len() && plan_tasks(init)[m] == t;
                assert((plan_tasks(init) + own)[m] == t);
            } else {
                assert(plan_tasks(part)[k - fa.len()] == t);
                assert(plan_tasks(part).contains(t));
                assert(own.contains(t));
                let m = choose|m: int| 0 <= m < own.len() && own[m] == t;
                assert((plan_tasks(init) + own)[plan_tasks(init).len() + m] == t);
            }
        }
    }
}

proof fn lemma_select_agree<A>(items: Seq<A>, k1: Seq<bool>, k2: Seq<bool>)
    requires
        k1.len() >= items.len(),
        k2.len() >= items.len(),
        forall|i: int| 0 <= i < items.len() ==> k1[i] == k2[i],
    ensures
        select(items, k1) == select(items, k2),
    decreases items.len(),
{
    if items.len() > 0 {
        lemma_select_agree(items.drop_last(), k1, k2);
    }
}

proof fn lemma_select_append<A>(a: Seq<A>, b: Seq<A>, ka: Seq<bool>, kb: Seq<bool>)
    requires
        ka.len() == a.len(),
        kb.len() == b.len(),
    ensures
        select(a + b, ka + kb) == select(a, ka) + select(b, kb),
    decreases b.len(),
{
    if b.len() == 0 {
        assert(a + b =~= a);
        assert(ka + kb =~= ka);
        assert(select(a, ka) + select(b, kb) =~= select(a, ka));
    } else {
        let n = b.len();
        let bi = b.drop_last();
        let ki = kb.drop_last();
        lemma_select_append(a, bi, ka, ki);
        assert((a + b).drop_last() =~= a + bi);
        lemma_select_agree(a + bi, ka + kb, ka + ki);
        lemma_select_agree(bi, kb, ki);
        assert((ka + kb)[(a + b).len() - 1] == kb[n - 1]);
        assert((a + b).last() == b.last());
        if kb[n - 1] {
            assert(select(a + b, ka + kb) == select(a + bi, ka + kb).push(b.last()));
            assert(select(b, kb) == select(bi, kb).push(b.last()));
            assert(select(a, ka) + select(bi, ki).push(b.last()) =~= (select(a, ka) + select(bi, ki)).push(b.last()));
        } else {
            assert(select(a + b, ka + kb) == select(a + bi, ka + kb));
            assert(select(b, kb) == select(bi, kb));
        }
    }
}

proof fn lemma_filter_stage_tasks(st: StageView, k: Seq<bool>)
    requires
        k.len() == stage_tasks_spec(st).len(),
    ensures
        plan_tasks(filter_stage(st, k)) == select(stage_tasks_spec(st), k),
{
    lemma_plan_push(Seq::<StageView>::empty(), st);
    assert(plan_tasks(Seq::<StageView>::empty()) =~= Seq::<TaskPlanView>::empty());
    match st {
        StageView::Serial(x) => {
            let one = seq![x];
            assert(one.drop_last() =~= Seq::<TaskPlanView>::empty());
            assert(one.len() == 1 && one.last() == x);
            assert(select(Seq::<TaskPlanView>::empty(), k) =~= Seq::<TaskPlanView>::empty());
            assert(select(one, k) == (if k[0] { select(one.drop_last(), k).push(x) } else { select(one.drop_last(), k) }));
            if k[0] {
                assert(filter_stage(st, k) =~= Seq::<StageView>::empty().push(StageView::Serial(x)));
                lemma_plan_push(Seq::<StageView>::empty(), StageView::Serial(x));
                assert(select(seq![x], k) =~= seq![x]);
            } else {
                assert(filter_stage(st, k) =~= Seq::<StageView>::empty());
                assert(select(seq![x], k) =~= Seq::<TaskPlanView>::empty());
            }
        },
        StageView::Parallel { group, tasks } => {
            let ts = select(tasks, k);
            if ts.len() > 0 {
                let s2 = StageView::Parallel { group, tasks: ts };
                assert(filter_stage(st, k) =~= Seq::<StageView>::empty().push(s2));
                lemma_plan_push(Seq::<StageView>::empty(), s2);
            } else {
                assert(filter_stage(st, k) =~= Seq::<StageView>::empty());
                assert(ts =~= Seq::<TaskPlanView>::empty());
            }
        },
    }
}

/// Filtering keeps exactly the tasks the predicate accepts, in plan order:
/// with one decision per task, the filtered plan's tasks are the plan's
/// tasks at the positions decided `true`, each unchanged (its identity and
/// group occurrence included).
pub proof fn law_filter_keeps_exactly_accepted_tasks(stages: Seq<StageView>, kept: Seq<Seq<bool>>)
    requires
        kept.len() >= stages.len(),
        forall|i: int|
            0 <= i < stages.len() ==> (#[trigger] kept[i]).len() == stage_tasks_spec(
                stages[i],
            ).len(),
    ensures
        plan_tasks(filter_apply(stages, kept)) == select(
            plan_tasks(stages),
            concat_all(kept.take(stages.len() as int)),
        ),
    decreases stages.len(),
{
    let n = stages.len() as int;
    if n == 0 {
        assert(filter_apply(stages, kept) =~= Seq::<StageView>::empty());
        assert(plan_tasks(Seq::<StageView>::empty()) =~= Seq::<TaskPlanView>::empty());
        assert(stages =~= Seq::<StageView>::empty());
    } else {
        let init = stages.drop_last();
        let last = stages.last();
        law_filter_keeps_exactly_accepted_tasks(init, kept);
        lemma_plan_tasks_append(filter_apply(init, kept), filter_stage(last, kept[n - 1]));
        assert(stages =~= init.push(last));
        lemma_plan_push(init, last);
        assert(kept[n - 1].len() == stage_tasks_spec(stages[n - 1]).len());
        lemma_filter_stage_tasks(last, kept[n - 1]);
        assert(kept.take(n).drop_last() =~= kept.take(n - 1));
        assert(concat_all(kept.take(n)) == concat_all(kept.take(n - 1)) + kept[n - 1]);
        lemma_concat_len_matches(init, kept);
        lemma_select_append(
            plan_tasks(init),
            stage_tasks_spec(last),
            concat_all(kept.take(n - 1)),
            kept[n - 1],
        );
    }
}

proof fn lemma_concat_len_matches(stages: Seq<StageView>, kept: Seq<Seq<bool>>)
    requires
        kept.len() >= stages.len(),
        forall|i: int|
            0 <= i < stages.len() ==> (#[trigger] kept[i]).len() == stage_tasks_spec(
                stages[i],
            ).len(),
    ensures
        concat_all(kept.take(stages.len() as int)).len() == plan_tasks(stages).len(),
    decreases stages.len(),
{
    let n = stages.len() as int;
    if n == 0 {
        assert(plan_tasks(Seq::<StageView>::empty()) =~= Seq::<TaskPlanView>::empty());
        assert(stages =~= Seq::<StageView>::empty());
    } else {
        let init = stages.drop_last();
        lemma_concat_len_matches(init, kept);
        assert(stages =~= init.push(stages.last()));
        lemma_plan_push(init, stages.last());
        assert(kept.take(n).drop_last() =~= kept.take(n - 1));
        assert(kept[n - 1].len() == stage_tasks_spec(stages[n - 1]).len());
    }
}

/// A stage carries the identity its place gives it: the tasks of the `n`-th
/// occurrence of a group are tagged `group#n`; a serial task has none.
pub open spec fn stage_numbered(before: Seq<StageView>, st: StageView) -> bool {
    match st {
        StageView::Parallel { group, tasks } => forall|k: int|
            0 <= k < tasks.len() ==> (#[trigger] tasks[k]).group_occurrence == Some(
                occurrence_id(group, occurrences(before, group) + 1),
            ),
        StageView::Serial(t) => t.group_occurrence is None,
    }
}

/// Every stage of a plan carries the identity its place gives it.
pub open spec fn numbered(stages: Seq<StageView>) -> bool {
    forall|i: int| 0 <= i < stages.len() ==> stage_numbered(stages.take(i), #[trigger] stages[i])
}

proof fn lemma_numbered_push(stages: Seq<StageView>, st: StageView)
    requires
        numbered(stages),
        stage_numbered(stages, st),
    ensures
        numbered(stages.push(st)),
{
    let all = stages.push(st);
    assert forall|i: int| 0 <= i < all.len() implies stage_numbered(all.take(i), #[trigger] all[i]) by {
        if i < stages.len() {
            assert(all.take(i) =~= stages.take(i));
            assert(all[i] == stages[i]);
        } else {
            assert(all.take(i) =~= stages);
        }
    }
}

proof fn lemma_numbered_close(stages: Seq<StageView>, group: Seq<char>, tasks: Seq<TaskPlanView>)
    requires
        numbered(stages),
    ensures
        numbered(close_group(stages, group, tasks)),
{
    let id = occurrence_id(group, occurrences(stages, group) + 1);
    let tagged = tasks.map_values(|t: TaskPlanView| tag_task(t, id));
    assert(stage_numbered(stages, StageView::Parallel { group, tasks: tagged }));
    lemma_numbered_push(stages, StageView::Parallel { group, tasks: tagged });
}

proof fn lemma_build_numbered(rules: Seq<RulesView>)
    ensures
        numbered(build(rules).stages),
    decreases rules.len(),
{
    if rules.len() == 0 {
        assert(numbered(Seq::<StageView>::empty()));
    } else {
        let b = build(rules.drop_last());
        lemma_build_numbered(rules.drop_last());
        let t = task_from_rule(rules.last(), rules.len() - 1);
        match b.open {
            Some((og, ts)) => lemma_numbered_close(b.stages, og, ts),
            None => {},
        }
        if t.parallel is None {
            lemma_numbered_push(close_open(b), StageView::Serial(t));
        }
    }
}

/// A plan built from rules numbers group occurrences per name: the tasks
/// of the `n`-th occurrence of a group carry `group#n`, and serial tasks
/// carry no occurrence identity.
pub proof fn law_group_occurrences_are_numbered(rules: Seq<RulesView>)
    ensures
        numbered(from_rules_spec(rules)),
{
    lemma_build_numbered(rules);
    let b = build(rules);
    match b.open {
        Some((og, ts)) => lemma_numbered_close(b.stages, og, ts),
        None => {},
    }
}

proof fn lemma_expand_tasks_keep_names(ts: Seq<TaskPlanView>, opts: TemplateOptions)
    ensures
        expand_tasks_spec(ts, opts).0.map_values(|t: TaskPlanView| t.name) == ts.map_values(
            |t: TaskPlanView| t.name,
        ),
    decreases ts.len(),
{
    let h = |t: TaskPlanView| t.name;
    if ts.len() > 0 {
        lemma_expand_tasks_keep_names(ts.drop_last(), opts);
        let prev = expand_tasks_spec(ts.drop_last(), opts).0;
        let last = expand_task_spec(ts.last(), opts).0;
        assert(prev.push(last).map_values(h) =~= prev.map_values(h).push(last.name));
        assert(ts.map_values(h) =~= ts.drop_last().map_values(h).push(ts.last().name));
    } else {
        assert(expand_tasks_spec(ts, opts).0.map_values(h) =~= ts.map_values(h));
    }
}

/// Template expansion only rewrites commands: the expanded plan has the
/// same stages and the same tasks, in the same order.
pub proof fn law_expand_keeps_plan_shape(stages: Seq<StageView>, opts: TemplateOptions)
    ensures
        expand_plan_spec(stages, opts).0.len() == stages.len(),
        plan_names(expand_plan_spec(stages, opts).0) == plan_names(stages),
    decreases stages.len(),
{
    if stages.len() > 0 {
        let init = stages.drop_last();
        let last = stages.last();
        law_expand_keeps_plan_shape(init, opts);
        let prev = expand_plan_spec(init, opts).0;
        let e = expand_stage_spec(last, opts).0;
        lemma_plan_push(prev, e);
        assert(stages =~= init.push(last));
        lemma_plan_push(init, last);
        let h = |t: TaskPlanView| t.name;
        match last {
            StageView::Serial(t) => {
                assert(stage_tasks_spec(e).map_values(h) =~= seq![t.name]);
                assert(stage_tasks_spec(last).map_values(h) =~= seq![t.name]);
            },
            StageView::Parallel { group, tasks } => {
                lemma_expand_tasks_keep_names(tasks, opts);
            },
        }
    }
}

proof fn lemma_digit_char_injective(a: nat, b: nat)
    requires
        a < 10,
        b < 10,
        digit_char(a) == digit_char(b),
    ensures
        a == b,
{
}

/// Different numbers have different decimal texts.
pub proof fn lemma_decimal_injective(a: nat, b: nat)
    requires
        decimal(a) == decimal(b),
    ensures
        a == b,
    decreases a + b,
{
    if a < 10 && b < 10 {
        assert(decimal(a)[0] == digit_char(a));
        assert(decimal(b)[0] == digit_char(b));
        lemma_digit_char_injective(a, b);
    } else if a < 10 {
        lemma_decimal_len(b / 10);
        assert(decimal(b).len() == decimal(b / 10).len() + 1);
    } else if b < 10 {
        lemma_decimal_len(a / 10);
        assert(decimal(a).len() == decimal(a / 10).len() + 1);
    } else {
        assert(decimal(a).last() == digit_char(a % 10));
        assert(decimal(b).last() == digit_char(b % 10));
        lemma_digit_char_injective(a % 10, b % 10);
        assert(decimal(a).drop_last() =~= decimal(a / 10));
        assert(decimal(b).drop_last() =~= decimal(b / 10));
        lemma_decimal_injective(a / 10, b / 10);
    }
}

proof fn lemma_decimal_len(n: nat)
    ensures
        decimal(n).len() >= 1,
    decreases n,
{
    if n >= 10 {
        lemma_decimal_len(n / 10);
    }
}

proof fn lemma_decimal_has_no_hash(n: nat)
    ensures
        !decimal(n).contains('#'),
    decreases n,
{
    if n >= 10 {
        lemma_decimal_has_no_hash(n / 10);
        let d = decimal(n / 10);
        if decimal(n).contains('#') {
            let k = choose|k: int| 0 <= k < decimal(n).len() && decimal(n)[k] == '#';
            if k < d.len() {
                assert(d[k] == '#');
            }
        }
    }
}

/// An occurrence identity names its group and number: different groups or
/// different numbers give different identities.
pub proof fn lemma_occurrence_id_injective(g1: Seq<char>, n1: nat, g2: Seq<char>, n2: nat)
    requires
        occurrence_id(g1, n1) == occurrence_id(g2, n2),
    ensures
        g1 == g2,
        n1 == n2,
{
    let d1 = decimal(n1);
    let d2 = decimal(n2);
    let x = occurrence_id(g1, n1);
    reveal_strlit("#");
    lemma_decimal_has_no_hash(n1);
    lemma_decimal_has_no_hash(n2);
    assert(x == g1 + seq!['#'] + d1);
    assert(x == g2 + seq!['#'] + d2);
    if d1.len() < d2.len() {
        let k = x.len() - d1.len() - 1;
        assert(x[k] == '#');
        assert(x[k] == d2[k - g2.len() - 1]);
        assert(d2.contains('#'));
    } else if d2.len() < d1.len() {
        let k = x.len() - d2.len() - 1;
        assert(x[k] == '#');
        assert(x[k] == d1[k - g1.len() - 1]);
        assert(d1.contains('#'));
    } else {
        assert(g1.len() == g2.len());
        assert forall|k: int| 0 <= k < g1.len() implies g1[k] == g2[k] by {
            assert(x[k] == g1[k]);
            assert(x[k] == g2[k]);
        }
        assert(g1 =~= g2);
        assert forall|k: int| 0 <= k < d1.len() implies d1[k] == d2[k] by {
            assert(x[g1.len() + 1 + k] == d1[k]);
            assert(x[g2.len() + 1 + k] == d2[k]);
        }
        assert(d1 =~= d2);
        lemma_decimal_injective(n1, n2);
    }
}

proof fn lemma_occurrences_grow(stages: Seq<StageView>, i: int, j: int, g: Seq<char>)
    requires
        0 <= i < j <= stages.len(),
        stages[i] matches StageView::Parallel { group, .. } && group == g,
    ensures
        occurrences(stages.take(j), g) >= occurrences(stages.take(i), g) + 1,
    decreases j - i,
{
    if j == i + 1 {
        assert(stages.take(j).drop_last() =~= stages.take(i));
        assert(stages.take(j).last() == stages[i]);
    } else {
        lemma_occurrences_grow(stages, i, j - 1, g);
        assert(stages.take(j).drop_last() =~= stages.take(j - 1));
    }
}

/// In a plan built from rules, two tasks of different group occurrences
/// never share an occurrence identity.
pub proof fn law_group_occurrence_ids_are_unique(rules: Seq<RulesView>, i: int, j: int, a: int, b: int)
    requires
        0 <= i < j < from_rules_spec(rules).len(),
        from_rules_spec(rules)[i] is Parallel,
        from_rules_spec(rules)[j] is Parallel,
        0 <= a < stage_tasks_spec(from_rules_spec(rules)[i]).len(),
        0 <= b < stage_tasks_spec(from_rules_spec(rules)[j]).len(),
    ensures
        stage_tasks_spec(from_rules_spec(rules)[i])[a].group_occurrence != stage_tasks_spec(
            from_rules_spec(rules)[j],
        )[b].group_occurrence,
{
    let stages = from_rules_spec(rules);
    law_group_occurrences_are_numbered(rules);
    assert(stage_numbered(stages.take(i), stages[i]));
    assert(stage_numbered(stages.take(j), stages[j]));
    match (stages[i], stages[j]) {
        (
            StageView::Parallel { group: gi, tasks: ti },
            StageView::Parallel { group: gj, tasks: tj },
        ) => {
            let ni = occurrences(stages.take(i), gi) + 1;
            let nj = occurrences(stages.take(j), gj) + 1;
            assert(ti[a].group_occurrence == Some(occurrence_id(gi, ni)));
            assert(tj[b].group_occurrence == Some(occurrence_id(gj, nj)));
            if occurrence_id(gi, ni) == occurrence_id(gj, nj) {
                lemma_occurrence_id_injective(gi, ni, gj, nj);
                lemma_occurrences_grow(stages, i, j, gi);
            }
        },
        _ => {},
    }
}

/// A run with a cancelled or failed task is never a success.
pub proof fn law_cancelled_or_failed_is_not_success(ts: Seq<(Seq<char>, TaskOutcomeView)>)
    ensures
        is_cancelled_spec(ts) ==> !is_success_spec(ts),
        has_failures_spec(ts) ==> !is_success_spec(ts),
{
}

/// Whether a run succeeded, failed or was cancelled does not depend on the
/// order in which task outcomes were recorded.
pub proof fn law_outcome_is_order_independent(
    a: Seq<(Seq<char>, TaskOutcomeView)>,
    b: Seq<(Seq<char>, TaskOutcomeView)>,
)
    requires
        a.to_multiset() == b.to_multiset(),
    ensures
        is_success_spec(a) == is_success_spec(b),
        has_failures_spec(a) == has_failures_spec(b),
        is_cancelled_spec(a) == is_cancelled_spec(b),
{
    broadcast use vstd::seq_lib::group_to_multiset_ensures;

    assert forall|x: (Seq<char>, TaskOutcomeView)| a.contains(x) <==> b.contains(x) by {
        assert(a.contains(x) <==> a.to_multiset().count(x) > 0);
        assert(b.contains(x) <==> b.to_multiset().count(x) > 0);
    }
    if is_success_spec(a) && !is_success_spec(b) {
        let i = choose|i: int| 0 <= i < b.len() && !(b[i].1 is Passed);
        assert(b.contains(b[i]));
        let j = choose|j: int| 0 <= j < a.len() && a[j] == b[i];
    }
    if is_success_spec(b) && !is_success_spec(a) {
        let i = choose|i: int| 0 <= i < a.len() && !(a[i].1 is Passed);
        assert(a.contains(a[i]));
        let j = choose|j: int| 0 <= j < b.len() && b[j] == a[i];
    }
    if has_failures_spec(a) {
        let i = choose|i: int| 0 <= i < a.len() && (#[trigger] a[i]).1 is Failed;
        assert(a.contains(a[i]));
        let j = choose|j: int| 0 <= j < b.len() && b[j] == a[i];
        assert(b[j].1 is Failed);
    }
    if has_failures_spec(b) {
        let i = choose|i: int| 0 <= i < b.len() && (#[trigger] b[i]).1 is Failed;
        assert(b.contains(b[i]));
        let j = choose|j: int| 0 <= j < a.len() && a[j] == b[i];
        assert(a[j].1 is Failed);
    }
    if is_cancelled_spec(a) {
        let i = choose|i: int| 0 <= i < a.len() && (#[trigger] a[i]).1 is Cancelled;
        assert(a.contains(a[i]));
        let j = choose|j: int| 0 <= j < b.len() && b[j] == a[i];
        assert(b[j].1 is Cancelled);
    }
    if is_cancelled_spec(b) {
        let i = choose|i: int| 0 <= i < b.len() && (#[trigger] b[i]).1 is Cancelled;
        assert(b.contains(b[i]));
        let j = choose|j: int| 0 <= j < a.len() && a[j] == b[i];
        assert(a[j].1 is Cancelled);
    }
}
// ---------------------------------------------------------------------------
// Context diagnostics
// ---------------------------------------------------------------------------

/// The names of an environment.
pub open spec fn key_views(env: Map<String, String>) -> Set<Seq<char>> {
    env.dom().map(|k: String| k@)
}

/// The names of an environment in ascending order.
pub open spec fn sorted_keys(env: Map<String, String>) -> Seq<Seq<char>> {
    choose|s: Seq<Seq<char>>| strictly_sorted(s) && s.to_set() == key_views(env)
}

/// The keys of an environment map in ascending order (`BTreeMap::keys`).
/// std documents that a `BTreeMap` yields its keys in ascending order, each
/// once; a `String` orders by its bytes, which is code point order.
#[verifier::external_body]
fn sorted_env_keys(env: &BTreeMap<String, String>) -> (r: Vec<String>)
    ensures
        strictly_sorted(views(r@)),
        views(r@).to_set() == key_views(env@),
{
    env.keys().cloned().collect()
}

/// Two ascending sequences with the same elements are the same sequence.
pub proof fn lemma_sorted_unique(a: Seq<Seq<char>>, b: Seq<Seq<char>>)
    requires
        strictly_sorted(a),
        strictly_sorted(b),
        a.to_set() == b.to_set(),
    ensures
        a == b,
    decreases a.len(),
{
    if a.len() == 0 {
        if b.len() > 0 {
            assert(b.to_set().contains(b[0]));
        }
        assert(a =~= b);
    } else {
        assert(a.to_set().contains(a[0]));
        assert(b.to_set().contains(a[0]));
        let j = choose|j: int| 0 <= j < b.len() && b[j] == a[0];
        assert(b.to_set().contains(b[0]));
        let i = choose|i: int| 0 <= i < a.len() && a[i] == b[0];
        if a[0] != b[0] {
            assert(lex_lt(b[0], b[j]));
            assert(lex_lt(a[0], a[i]));
            lemma_lex_asymmetric(a[0], b[0]);
        }
        let a1 = a.drop_first();
        let b1 = b.drop_first();
        assert forall|x: Seq<char>| a1.to_set().contains(x) <==> b1.to_set().contains(x) by {
            if a1.contains(x) {
                let k = choose|k: int| 0 <= k < a1.len() && a1[k] == x;
                assert(a[k + 1] == x);
                assert(lex_lt(a[0], a[k + 1]));
                lemma_lex_irreflexive(x);
                assert(b.to_set().contains(x));
                let m = choose|m: int| 0 <= m < b.len() && b[m] == x;
                assert(m != 0);
                assert(b1[m - 1] == x);
            }
            if b1.contains(x) {
                let k = choose|k: int| 0 <= k < b1.len() && b1[k] == x;
                assert(b[k + 1] == x);
                assert(lex_lt(b[0], b[k + 1]));
                lemma_lex_irreflexive(x);
                assert(a.to_set().contains(x));
                let m = choose|m: int| 0 <= m < a.len() && a[m] == x;
                assert(m != 0);
                assert(a1[m - 1] == x);
            }
        }
        assert(a1.to_set() =~= b1.to_set());
        lemma_sorted_unique(a1, b1);
        assert(a.len() == b.len());
        assert forall|k: int| 0 <= k < a.len() implies a[k] == b[k] by {
            if k > 0 {
                assert(a[k] == a1[k - 1]);
                assert(b[k] == b1[k - 1]);
            }
        }
        assert(a =~= b);
    }
}

/// The diagnostics line of one task: its name, its effective working
/// directory and the names of its environment, never their values.
pub open spec fn context_line(t: TaskPlanView) -> Seq<char> {
    "task="@ + t.name + " cwd="@ + match t.cwd {
        Some(c) => c,
        None => "<workspace>"@,
    } + " env=["@ + join(sorted_keys(t.environment), ", "@) + "]"@
}

/// One diagnostics line per task, in plan order.
pub open spec fn context_summary_spec(stages: Seq<StageView>) -> Seq<char> {
    join(plan_tasks(stages).map_values(|t: TaskPlanView| context_line(t)), "\n"@)
}

fn context_line_of(t: &TaskPlan) -> (r: String)
    ensures
        r@ == context_line(t@),
{
    let keys = sorted_env_keys(&t.context.environment);
    proof {
        let s = views(keys@);
        assert(strictly_sorted(s) && s.to_set() == key_views(t@.environment));
        let c = sorted_keys(t@.environment);
        lemma_sorted_unique(s, c);
    }
    let mut line = to_chars("task=");
    crate::text::extend_chars(&mut line, &to_chars(t.name.as_str()));
    crate::text::extend_chars(&mut line, &to_chars(" cwd="));
    match &t.context.cwd {
        Some(c) => crate::text::extend_chars(&mut line, &to_chars(c.as_str())),
        None => crate::text::extend_chars(&mut line, &to_chars("<workspace>")),
    }
    crate::text::extend_chars(&mut line, &to_chars(" env=["));
    let joined = join_strings(&keys, ", ");
    crate::text::extend_chars(&mut line, &to_chars(joined.as_str()));
    crate::text::extend_chars(&mut line, &to_chars("]"));
    crate::text::from_chars(&line)
}

impl RunPlan {
    /// Human diagnostics: the effective working directory and environment
    /// names of every task, never environment values.
    pub fn context_summary(&self) -> (r: String)
        ensures
            r@ == context_summary_spec(self@),
    {
        let mut lines: Vec<String> = Vec::new();
        let ghost f = |t: TaskPlanView| context_line(t);
        let mut i: usize = 0;
        while i < self.stages.len()
            invariant
                i <= self.stages@.len(),
                f == (|t: TaskPlanView| context_line(t)),
                views(lines@) == plan_tasks(self@.take(i as int)).map_values(f),
            decreases self.stages@.len() - i,
        {
            let ghost before = views(lines@);
            match &self.stages[i] {
                Stage::Serial(task) => {
                    lines.push(context_line_of(task));
                    proof {
                        assert(views(lines@) =~= before + seq![task@].map_values(f));
                    }
                },
                Stage::Parallel { tasks, .. } => {
                    let mut j: usize = 0;
                    while j < tasks.len()
                        invariant
                            j <= tasks@.len(),
                            f == (|t: TaskPlanView| context_line(t)),
                            views(lines@) == before + task_views(tasks@).take(j as int).map_values(f),
                        decreases tasks@.len() - j,
                    {
                        let ghost mid = views(lines@);
                        lines.push(context_line_of(&tasks[j]));
                        proof {
                            assert(task_views(tasks@).take(j + 1).map_values(f) =~= task_views(
                                tasks@,
                            ).take(j as int).map_values(f).push(context_line(tasks@[j as int]@)));
                            assert(views(lines@) =~= mid.push(context_line(tasks@[j as int]@)));
                        }
                        j = j + 1;
                    }
                    assert(task_views(tasks@).take(tasks@.len() as int) =~= task_views(tasks@));
                },
            }
            proof {
                assert(self@.take(i + 1) =~= self@.take(i as int).push(self@[i as int]));
                lemma_plan_push(self@.take(i as int), self@[i as int]);
                let a = plan_tasks(self@.take(i as int));
                let b = stage_tasks_spec(self@[i as int]);
                assert((a + b).map_values(f) =~= a.map_values(f) + b.map_values(f));
                assert(views(lines@) =~= plan_tasks(self@.take(i + 1)).map_values(f));
            }
            i = i + 1;
        }
        assert(self@.take(self@.len() as int) =~= self@);
        join_strings(&lines, "\n")
    }
}

} // verus!
