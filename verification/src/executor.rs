//! The decisions around running a function: whether its dependencies run in parallel,
//! in which batches they run, and how the available functions are listed. Running the
//! commands, threads and printing are left to the caller.
use vstd::prelude::*;
use crate::graph::{cycle_through, deps_of, dfs_order, 
    cycle_error, cycle_from, dependencies_first, reachable, resolve_dependencies, resolve_dependency_stages, stage_views,
    stages_ok,
};
use crate::interpreter::preamble::contains_name;
use crate::table::Table;
use crate::order::strictly_sorted;
use crate::text::{from_chars, push_str, string_views, to_chars};

verus! {

/// Whether the dependencies of a function run in parallel: not when the script is only
/// shown, nor with one job; otherwise when asked for (by flag, by the function, or by
/// more than one job).
pub open spec fn parallel_mode(show_script: bool, parallel: bool, target_parallel: bool, jobs: Option<usize>) -> bool {
    &&& !show_script
    &&& (parallel || target_parallel || (jobs matches Some(j) && j > 1))
    &&& (jobs matches Some(j) ==> j > 1)
}

/// Whether the dependencies of a function run in parallel (see `parallel_mode`).
pub fn execution_is_parallel(show_script: bool, parallel: bool, target_parallel: bool, jobs: Option<usize>) -> (b: bool)
    ensures
        b == parallel_mode(show_script, parallel, target_parallel, jobs),
{
    let many_jobs = match jobs {
        Some(j) => j > 1,
        None => false,
    };
    let jobs_allow = match jobs {
        Some(j) => j > 1,
        None => true,
    };
    !show_script && (parallel || target_parallel || many_jobs) && jobs_allow
}

/// A step in running the dependencies of a function.
#[derive(Debug)]
pub enum Batch {
    /// Run one function.
    Single(String),
    /// Run these functions at once, on this many workers.
    Parallel { tasks: Vec<String>, workers: usize },
}

pub enum BatchView {
    Single(Seq<char>),
    Parallel { tasks: Seq<Seq<char>>, workers: nat },
}

pub open spec fn batch_view(b: Batch) -> BatchView {
    match b {
        Batch::Single(s) => BatchView::Single(s@),
        Batch::Parallel { tasks, workers } => BatchView::Parallel { tasks: string_views(tasks@), workers: workers as nat },
    }
}

pub open spec fn batches_view(v: Seq<Batch>) -> Seq<BatchView> {
    v.map_values(|b: Batch| batch_view(b))
}

/// Each function of the order but the last (the target itself), one at a time.
pub open spec fn sequential_plan(order: Seq<Seq<char>>) -> Seq<BatchView> {
    if order.len() == 0 {
        Seq::empty()
    } else {
        order.drop_last().map_values(|f: Seq<char>| BatchView::Single(f))
    }
}

/// The number of workers for a stage: as many as tasks, at most the job limit (the
/// available parallelism when no positive limit is given).
pub open spec fn workers_for(tasks: nat, jobs: Option<usize>, available: nat) -> nat {
    let max_jobs: nat = match jobs {
        Some(j) => if j > 0 { j as nat } else { available },
        None => available,
    };
    if tasks < max_jobs { tasks } else { max_jobs }
}

/// The stages before the last (the target itself): an empty stage is skipped, a stage of
/// one function runs it alone, a larger stage runs in parallel.
pub open spec fn parallel_plan(stages: Seq<Seq<Seq<char>>>, jobs: Option<usize>, available: nat) -> Seq<BatchView>
    decreases stages.len(),
{
    if stages.len() <= 1 {
        Seq::empty()
    } else {
        parallel_plan(stages.drop_last(), jobs, available) + stage_batch(stages[stages.len() - 2], jobs, available)
    }
}

/// The batches of one stage.
pub open spec fn stage_batch(s: Seq<Seq<char>>, jobs: Option<usize>, available: nat) -> Seq<BatchView> {
    if s.len() == 0 {
        Seq::empty()
    } else if s.len() == 1 {
        seq![BatchView::Single(s[0])]
    } else {
        seq![BatchView::Parallel { tasks: s, workers: workers_for(s.len(), jobs, available) }]
    }
}

/// The batches that run the dependencies in this order (see `sequential_plan`).
pub fn sequential_batches(order: &Vec<String>) -> (r: Vec<Batch>)
    ensures
        batches_view(r@) == sequential_plan(string_views(order@)),
{
    let mut r: Vec<Batch> = Vec::new();
    if order.len() == 0 {
        assert(batches_view(r@) =~= sequential_plan(string_views(order@)));
        return r;
    }
    let n = order.len() - 1;
    let mut i: usize = 0;
    while i < n
        invariant
            n == order@.len() - 1,
            i <= n,
            batches_view(r@) == sequential_plan(string_views(order@)).take(i as int),
        decreases n - i,
    {
        let ghost before = batches_view(r@);
        r.push(Batch::Single(order[i].clone()));
        assert(batches_view(r@) =~= before.push(BatchView::Single(order@[i as int]@)));
        assert(batches_view(r@) =~= sequential_plan(string_views(order@)).take(i + 1));
        i = i + 1;
    }
    assert(sequential_plan(string_views(order@)).take(n as int) =~= sequential_plan(string_views(order@)));
    r
}

fn workers(tasks: usize, jobs: Option<usize>, available: usize) -> (w: usize)
    ensures
        w == workers_for(tasks as nat, jobs, available as nat),
{
    let max_jobs = match jobs {
        Some(j) => if j > 0 {
            j
        } else {
            available
        },
        None => available,
    };
    if tasks < max_jobs {
        tasks
    } else {
        max_jobs
    }
}

proof fn lemma_parallel_plan_step(stages: Seq<Seq<Seq<char>>>, k: int, jobs: Option<usize>, available: nat)
    requires
        1 <= k < stages.len(),
    ensures
        parallel_plan(stages.take(k + 1), jobs, available) == parallel_plan(stages.take(k), jobs, available) + stage_batch(
            stages[k - 1],
            jobs,
            available,
        ),
{
    assert(stages.take(k + 1).drop_last() =~= stages.take(k));
}

/// The batches that run the stages before the target (see `parallel_plan`).
pub fn parallel_batches(stages: &Vec<Vec<String>>, jobs: Option<usize>, available: usize) -> (r: Vec<Batch>)
    ensures
        batches_view(r@) == parallel_plan(stage_views(stages@), jobs, available as nat),
{
    let ghost sv = stage_views(stages@);
    let mut r: Vec<Batch> = Vec::new();
    if stages.len() <= 1 {
        assert(batches_view(r@) =~= Seq::<BatchView>::empty());
        return r;
    }
    let n = stages.len() - 1;
    let mut i: usize = 0;
    assert(parallel_plan(sv.take(1), jobs, available as nat) == Seq::<BatchView>::empty());
    assert(batches_view(r@) =~= Seq::<BatchView>::empty());
    while i < n
        invariant
            n == stages@.len() - 1,
            i <= n,
            sv == stage_views(stages@),
            batches_view(r@) == parallel_plan(sv.take(i + 1), jobs, available as nat),
        decreases n - i,
    {
        proof { lemma_parallel_plan_step(sv, i + 1, jobs, available as nat); }
        let stage = &stages[i];
        assert(sv[i as int] == string_views(stage@));
        let ghost before = batches_view(r@);
        if stage.len() == 1 {
            r.push(Batch::Single(stage[0].clone()));
            assert(batches_view(r@) =~= before + seq![BatchView::Single(sv[i as int][0])]);
        } else if stage.len() > 1 {
            let w = workers(stage.len(), jobs, available);
            r.push(Batch::Parallel { tasks: crate::interpreter::copy_strings(stage.as_slice()), workers: w });
            assert(batches_view(r@) =~= before + seq![BatchView::Parallel { tasks: sv[i as int], workers: w as nat }]);
        } else {
            assert(batches_view(r@) =~= before + Seq::<BatchView>::empty());
        }
        i = i + 1;
    }
    assert(sv.take(n + 1) =~= sv);
    r
}

/// The batches that run the dependencies of `target` before it: by the stages of the
/// dependency graph when in parallel mode, one function at a time in dependency order
/// otherwise. A dependency cycle is refused.
pub fn plan_dependencies(
    target: &str,
    deps: &Table<Vec<String>>,
    parallel: bool,
    jobs: Option<usize>,
    available: usize,
) -> (r: Result<Vec<Batch>, String>)
    ensures
        r is Err <==> cycle_from(deps.entries@, target@),
        r matches Err(e) ==> exists|x: Seq<char>| #[trigger] cycle_through(deps.entries@, target@, x) && e@ == cycle_error(x),
        r matches Ok(b) ==> parallel ==> exists|ss: Seq<Seq<Seq<char>>>| stages_ok(deps.entries@, target@, ss)
            && batches_view(b@) == parallel_plan(ss, jobs, available as nat),
        r matches Ok(b) ==> !parallel ==> exists|o: Seq<Seq<char>>|
            {
                &&& dependencies_first(deps.entries@, o)
                &&& o.len() > 0 && o.last() == target@
                &&& forall|x: Seq<char>| #[trigger] o.contains(x) <==> reachable(deps.entries@, target@, x)
                &&& batches_view(b@) == sequential_plan(o)
            },
        r matches Ok(b) ==> planned_for(deps.entries@, target@, batches_view(b@), jobs, available as nat),
        r matches Ok(b) ==> !parallel ==> (dfs_order(deps.entries@, target@) matches Ok(o) && batches_view(b@) == sequential_plan(o)),
        r matches Err(e) ==> (dfs_order(deps.entries@, target@) matches Err(x) && e@ == cycle_error(x)),
{
    if parallel {
        match resolve_dependency_stages(target, deps) {
            Ok(stages) => Ok(parallel_batches(&stages, jobs, available)),
            Err(e) => Err(e),
        }
    } else {
        match resolve_dependencies(target, deps) {
            Ok(order) => Ok(sequential_batches(&order)),
            Err(e) => Err(e),
        }
    }
}

/// The functions of `global` that `project` does not define again, in order.
pub open spec fn global_only(global: Seq<Seq<char>>, project: Seq<Seq<char>>) -> Seq<Seq<char>>
    decreases global.len(),
{
    if global.len() == 0 {
        Seq::empty()
    } else {
        let r = global_only(global.drop_last(), project);
        if project.contains(global.last()) {
            r
        } else {
            r.push(global.last())
        }
    }
}

/// A project function's line, marked when it overrides a global one.
pub open spec fn project_line(f: Seq<char>, global: Seq<Seq<char>>) -> Seq<char> {
    if global.contains(f) {
        "    "@ + f + " (overrides global)"@
    } else {
        "    "@ + f
    }
}

/// The lines listing the functions of both Runfiles: the project's (marking those that
/// override a global one), then the global ones it does not define; `None` when there
/// is none.
pub open spec fn sources_listing(global: Seq<Seq<char>>, project: Seq<Seq<char>>) -> Option<Seq<Seq<char>>> {
    let only = global_only(global, project);
    if project.len() == 0 && only.len() == 0 {
        None
    } else {
        Some(
            seq!["Available functions:"@] + (if project.len() > 0 {
                seq!["\n  From ./Runfile:"@] + project.map_values(|f: Seq<char>| project_line(f, global))
            } else {
                Seq::empty()
            }) + (if only.len() > 0 {
                seq!["\n  From ~/.runfile:"@] + only.map_values(|f: Seq<char>| "    "@ + f)
            } else {
                Seq::empty()
            }),
        )
    }
}

fn prefixed(prefix: &str, rest: &str) -> (s: String)
    ensures
        s@ == prefix@ + rest@,
{
    let mut m = to_chars(prefix);
    push_str(&mut m, rest);
    from_chars(m.as_slice())
}

/// The lines that list the functions of the global and project Runfiles (see
/// `sources_listing`); `None` when neither defines any.
pub fn list_functions_with_sources(global: &Vec<String>, project: &Vec<String>) -> (r: Option<Vec<String>>)
    ensures
        match sources_listing(string_views(global@), string_views(project@)) {
            Some(lines) => (r matches Some(v) && string_views(v@) == lines),
            None => r is None,
        },
{
    let ghost g = string_views(global@);
    let ghost p = string_views(project@);
    let mut only: Vec<String> = Vec::new();
    let mut i: usize = 0;
    while i < global.len()
        invariant
            i <= global@.len(),
            g == string_views(global@),
            p == string_views(project@),
            string_views(only@) == global_only(g.take(i as int), p),
        decreases global@.len() - i,
    {
        assert(g.take(i + 1).drop_last() =~= g.take(i as int));
        let f = to_chars(global[i].as_str());
        if !contains_name(project, f.as_slice()) {
            let ghost before = string_views(only@);
            only.push(global[i].clone());
            assert(string_views(only@) =~= before.push(g[i as int]));
        }
        i = i + 1;
    }
    assert(g.take(global@.len() as int) =~= g);
    if project.len() == 0 && only.len() == 0 {
        return None;
    }
    let mut lines: Vec<String> = Vec::new();
    lines.push("Available functions:".to_string());
    let ghost head = string_views(lines@);
    assert(head =~= seq!["Available functions:"@]);
    if project.len() > 0 {
        lines.push("\n  From ./Runfile:".to_string());
        let ghost start = string_views(lines@);
        let mut j: usize = 0;
        while j < project.len()
            invariant
                j <= project@.len(),
                g == string_views(global@),
                p == string_views(project@),
                string_views(lines@) == start + p.take(j as int).map_values(|f: Seq<char>| project_line(f, g)),
            decreases project@.len() - j,
        {
            let f = to_chars(project[j].as_str());
            let line = if contains_name(global, f.as_slice()) {
                let mut l = to_chars("    ");
                push_str(&mut l, project[j].as_str());
                push_str(&mut l, " (overrides global)");
                from_chars(l.as_slice())
            } else {
                prefixed("    ", project[j].as_str())
            };
            let ghost before = string_views(lines@);
            lines.push(line);
            assert(p.take(j + 1).map_values(|f: Seq<char>| project_line(f, g)) =~= p.take(j as int).map_values(
                |f: Seq<char>| project_line(f, g),
            ).push(project_line(p[j as int], g)));
            assert(string_views(lines@) =~= before.push(line@));
            j = j + 1;
        }
        assert(p.take(project@.len() as int) =~= p);
        assert(string_views(lines@) =~= seq!["Available functions:"@] + (seq!["\n  From ./Runfile:"@]
            + p.map_values(|f: Seq<char>| project_line(f, g))));
    }
    let ghost mid = string_views(lines@);
    let ghost project_part = if p.len() > 0 {
        seq!["\n  From ./Runfile:"@] + p.map_values(|f: Seq<char>| project_line(f, g))
    } else {
        Seq::<Seq<char>>::empty()
    };
    assert(mid =~= seq!["Available functions:"@] + project_part);
    if only.len() > 0 {
        lines.push("\n  From ~/.runfile:".to_string());
        let ghost start = string_views(lines@);
        let ghost o = string_views(only@);
        let mut j: usize = 0;
        while j < only.len()
            invariant
                j <= only@.len(),
                o == string_views(only@),
                string_views(lines@) == start + o.take(j as int).map_values(|f: Seq<char>| "    "@ + f),
            decreases only@.len() - j,
        {
            let line = prefixed("    ", only[j].as_str());
            let ghost before = string_views(lines@);
            lines.push(line);
            assert(o.take(j + 1).map_values(|f: Seq<char>| "    "@ + f) =~= o.take(j as int).map_values(
                |f: Seq<char>| "    "@ + f,
            ).push("    "@ + o[j as int]));
            assert(string_views(lines@) =~= before.push(line@));
            j = j + 1;
        }
        assert(o.take(only@.len() as int) =~= o);
        assert(string_views(lines@) =~= mid + (seq!["\n  From ~/.runfile:"@] + o.map_values(|f: Seq<char>| "    "@ + f)));
    } else {
        assert(string_views(lines@) =~= mid + Seq::<Seq<char>>::empty());
    }
    assert(string_views(lines@) =~= sources_listing(g, p)->Some_0);
    Some(lines)
}

/// The lines that list the functions of one Runfile, headed by where they come from;
/// `None` when there is none.
pub open spec fn single_listing(label: Seq<char>, functions: Seq<Seq<char>>) -> Option<Seq<Seq<char>>> {
    if functions.len() == 0 {
        None
    } else {
        Some(seq!["Available functions from "@ + label + ":"@] + functions.map_values(|f: Seq<char>| "  "@ + f))
    }
}

/// The lines that list the functions of one Runfile (see `single_listing`).
pub fn list_functions(label: &str, functions: &Vec<String>) -> (r: Option<Vec<String>>)
    ensures
        match single_listing(label@, string_views(functions@)) {
            Some(lines) => (r matches Some(v) && string_views(v@) == lines),
            None => r is None,
        },
{
    if functions.len() == 0 {
        return None;
    }
    let mut lines: Vec<String> = Vec::new();
    let mut h = to_chars("Available functions from ");
    push_str(&mut h, label);
    push_str(&mut h, ":");
    lines.push(from_chars(h.as_slice()));
    let ghost start = string_views(lines@);
    let ghost fv = string_views(functions@);
    let mut j: usize = 0;
    while j < functions.len()
        invariant
            j <= functions@.len(),
            fv == string_views(functions@),
            string_views(lines@) == start + fv.take(j as int).map_values(|f: Seq<char>| "  "@ + f),
        decreases functions@.len() - j,
    {
        let line = prefixed("  ", functions[j].as_str());
        let ghost before = string_views(lines@);
        lines.push(line);
        assert(fv.take(j + 1).map_values(|f: Seq<char>| "  "@ + f) =~= fv.take(j as int).map_values(
            |f: Seq<char>| "  "@ + f,
        ).push("  "@ + fv[j as int]));
        assert(string_views(lines@) =~= before.push(line@));
        j = j + 1;
    }
    assert(fv.take(functions@.len() as int) =~= fv);
    assert(string_views(lines@) =~= single_listing(label@, fv)->Some_0);
    Some(lines)
}

/// Where the listed functions come from: the Runfile given on the command line, else
/// the global Runfile when that was loaded, else the project one.
pub fn source_label(custom_path: Option<&str>, has_global: bool) -> (s: String)
    ensures
        s@ == match custom_path {
            Some(p) => p@,
            None => if has_global { "~/.runfile"@ } else { "./Runfile"@ },
        },
{
    match custom_path {
        Some(p) => p.to_string(),
        None => if has_global {
            "~/.runfile".to_string()
        } else {
            "./Runfile".to_string()
        },
    }
}

fn copy_batch(b: &Batch) -> (r: Batch)
    ensures
        batch_view(r) == batch_view(*b),
{
    match b {
        Batch::Single(f) => Batch::Single(f.clone()),
        Batch::Parallel { tasks, workers } => Batch::Parallel {
            tasks: crate::interpreter::copy_strings(tasks.as_slice()),
            workers: *workers,
        },
    }
}

/// The progress of running the dependency batches of a function: the batches, how many
/// have run, and the first error, which ends the run.
pub struct DependencyRun {
    batches: Vec<Batch>,
    next: usize,
    error: Option<String>,
}

pub struct RunView {
    pub batches: Seq<BatchView>,
    pub next: nat,
    pub error: Option<Seq<char>>,
}

impl View for DependencyRun {
    type V = RunView;

    closed spec fn view(&self) -> RunView {
        RunView { batches: batches_view(self.batches@), next: self.next as nat, error: crate::ast::opt_view(self.error) }
    }
}

/// What to do next in running the dependencies.
#[derive(Debug)]
pub enum RunStep {
    /// Run this batch and report how it went.
    Run(Batch),
    /// The run is over: every batch succeeded, or this error stopped it.
    Finished(Result<(), String>),
}

/// The batch to run next, if any: none once a batch has failed or all have run.
pub open spec fn next_batch(v: RunView) -> Option<BatchView> {
    if v.error is None && v.next < v.batches.len() {
        Some(v.batches[v.next as int])
    } else {
        None
    }
}

/// The run after the batch in progress finished, with its error if it failed.
pub open spec fn after_batch(v: RunView, failure: Option<Seq<char>>) -> RunView {
    RunView { batches: v.batches, next: v.next + 1, error: failure }
}

/// The batches started when the batches finish with `failures` in turn (`None` for a
/// success), from run state `v`.
pub open spec fn started(v: RunView, failures: Seq<Option<Seq<char>>>) -> Seq<BatchView>
    decreases failures.len(),
{
    match next_batch(v) {
        None => Seq::empty(),
        Some(b) => if failures.len() == 0 {
            seq![b]
        } else {
            seq![b] + started(after_batch(v, failures[0]), failures.drop_first())
        },
    }
}

/// How many batches start when they finish with `failures` in turn: up to and including
/// the first failure, and no more than there are batches.
pub open spec fn started_count(n: nat, failures: Seq<Option<Seq<char>>>) -> nat
    decreases failures.len(),
{
    if n == 0 {
        0
    } else if failures.len() == 0 || failures[0] is Some {
        1
    } else {
        1 + started_count((n - 1) as nat, failures.drop_first())
    }
}

proof fn lemma_started_from(v: RunView, failures: Seq<Option<Seq<char>>>)
    requires
        v.error is None,
        v.next <= v.batches.len(),
    ensures
        started(v, failures) == v.batches.subrange(
            v.next as int,
            (v.next + started_count((v.batches.len() - v.next) as nat, failures)) as int,
        ),
        v.next + started_count((v.batches.len() - v.next) as nat, failures) <= v.batches.len(),
    decreases failures.len(),
{
    let n = (v.batches.len() - v.next) as nat;
    if n == 0 {
        assert(v.batches.subrange(v.next as int, v.next as int) =~= Seq::<BatchView>::empty());
    } else if failures.len() == 0 || failures[0] is Some {
        if failures.len() > 0 {
            let w = after_batch(v, failures[0]);
            assert(next_batch(w) is None);
            assert(started(w, failures.drop_first()) =~= Seq::<BatchView>::empty());
        }
        assert(v.batches.subrange(v.next as int, (v.next + 1) as int) =~= seq![v.batches[v.next as int]]);
    } else {
        let w = after_batch(v, failures[0]);
        lemma_started_from(w, failures.drop_first());
        assert((n - 1) as nat == (w.batches.len() - w.next) as nat);
        let k = started_count((n - 1) as nat, failures.drop_first());
        assert(seq![v.batches[v.next as int]] + v.batches.subrange((v.next + 1) as int, (v.next + 1 + k) as int)
            =~= v.batches.subrange(v.next as int, (v.next + 1 + k) as int));
    }
}

/// Running dependency batches stops at the first failure: from the start, the batches
/// started are the first ones, in order, up to and including the first that fails (all
/// of them when none fails); no batch after a failed one is started.
pub proof fn lemma_run_stops_at_first_failure(batches: Seq<BatchView>, failures: Seq<Option<Seq<char>>>)
    ensures
        started(RunView { batches, next: 0, error: None }, failures) == batches.take(
            started_count(batches.len(), failures) as int,
        ),
        started_count(batches.len(), failures) <= batches.len(),
        forall|i: int| 0 <= i < failures.len() && #[trigger] failures[i] is Some ==> started_count(batches.len(), failures) <= i + 1,
{
    let v = RunView { batches, next: 0, error: None };
    lemma_started_from(v, failures);
    assert(batches.subrange(0, started_count(batches.len(), failures) as int) =~= batches.take(
        started_count(batches.len(), failures) as int,
    ));
    lemma_started_count_first_failure(batches.len(), failures);
}

proof fn lemma_started_count_first_failure(n: nat, failures: Seq<Option<Seq<char>>>)
    ensures
        forall|i: int| 0 <= i < failures.len() && #[trigger] failures[i] is Some ==> started_count(n, failures) <= i + 1,
    decreases failures.len(),
{
    if n > 0 && failures.len() > 0 && failures[0] is None {
        lemma_started_count_first_failure((n - 1) as nat, failures.drop_first());
        assert forall|i: int| 0 <= i < failures.len() && #[trigger] failures[i] is Some implies started_count(n, failures) <= i + 1 by {
            assert(i > 0);
            assert(failures.drop_first()[i - 1] is Some);
        }
    }
}

impl DependencyRun {
    /// A run of these batches, none started yet.
    pub fn new(batches: Vec<Batch>) -> (r: DependencyRun)
        ensures
            r@ == (RunView { batches: batches_view(batches@), next: 0, error: None }),
    {
        DependencyRun { batches, next: 0, error: None }
    }

    /// What to do next: run the next batch, or finish with the first error, or with
    /// success once every batch has run (see `next_batch`).
    pub fn next_step(&self) -> (s: RunStep)
        ensures
            match next_batch(self@) {
                Some(b) => (s matches RunStep::Run(x) && batch_view(x) == b),
                None => match self@.error {
                    Some(e) => (s matches RunStep::Finished(Err(x)) && x@ == e),
                    None => s matches RunStep::Finished(Ok(())),
                },
            },
    {
        match &self.error {
            Some(e) => RunStep::Finished(Err(e.clone())),
            None => if self.next < self.batches.len() {
                RunStep::Run(copy_batch(&self.batches[self.next]))
            } else {
                RunStep::Finished(Ok(()))
            },
        }
    }

    /// Record how the batch in progress went (see `after_batch`).
    pub fn batch_done(&mut self, result: Result<(), String>)
        requires
            next_batch(old(self)@) is Some,
        ensures
            final(self)@ == after_batch(old(self)@, match result {
                Ok(()) => None,
                Err(e) => Some(e@),
            }),
    {
        assert(batches_view(self.batches@).len() == self.batches@.len());
        let n = self.batches.len();
        assert(self.next < n);
        self.next = self.next + 1;
        self.error = match result {
            Ok(()) => None,
            Err(e) => Some(e),
        };
    }
}

/// The functions a batch runs.
pub open spec fn batch_tasks(b: BatchView) -> Seq<Seq<char>> {
    match b {
        BatchView::Single(f) => seq![f],
        BatchView::Parallel { tasks, .. } => tasks,
    }
}

/// Some batch runs `x`.
pub open spec fn runs_task(bs: Seq<BatchView>, x: Seq<char>) -> bool {
    exists|k: int| 0 <= k < bs.len() && #[trigger] batch_tasks(bs[k]).contains(x)
}

/// Every dependency of a function that a batch runs is run by an earlier batch.
pub open spec fn dependencies_earlier(g: Seq<(String, Vec<String>)>, bs: Seq<BatchView>) -> bool {
    forall|k: int, x: Seq<char>, d: Seq<char>|
        0 <= k < bs.len() && #[trigger] batch_tasks(bs[k]).contains(x) && #[trigger] deps_of(g, x).contains(d) ==> exists|j: int|
            0 <= j < k && #[trigger] batch_tasks(bs[j]).contains(d)
}

/// No function is run twice.
pub open spec fn each_once(bs: Seq<BatchView>) -> bool {
    &&& forall|k: int| 0 <= k < bs.len() ==> (#[trigger] batch_tasks(bs[k])).no_duplicates()
    &&& forall|k1: int, k2: int, x: Seq<char>|
        0 <= k1 < k2 < bs.len() && #[trigger] batch_tasks(bs[k1]).contains(x) ==> !(#[trigger] batch_tasks(bs[k2])).contains(x)
}

/// Batches planned for the dependencies of `t`: in dependency order, one function at a
/// time, or stage by stage.
pub open spec fn planned_for(g: Seq<(String, Vec<String>)>, t: Seq<char>, bs: Seq<BatchView>, jobs: Option<usize>, available: nat) -> bool {
    ||| exists|o: Seq<Seq<char>>|
        {
            &&& dependencies_first(g, o)
            &&& o.len() > 0 && o.last() == t
            &&& forall|x: Seq<char>| #[trigger] o.contains(x) <==> reachable(g, t, x)
            &&& bs == sequential_plan(o)
        }
    ||| exists|ss: Seq<Seq<Seq<char>>>| stages_ok(g, t, ss) && bs == parallel_plan(ss, jobs, available)
}

proof fn lemma_sequential_batches(g: Seq<(String, Vec<String>)>, t: Seq<char>, o: Seq<Seq<char>>)
    requires
        dependencies_first(g, o),
        o.len() > 0 && o.last() == t,
        forall|x: Seq<char>| #[trigger] o.contains(x) <==> reachable(g, t, x),
    ensures
        dependencies_earlier(g, sequential_plan(o)),
        each_once(sequential_plan(o)),
        forall|x: Seq<char>| #[trigger] runs_task(sequential_plan(o), x) <==> (reachable(g, t, x) && x != t),
{
    let bs = sequential_plan(o);
    let n = o.len() - 1;
    assert(bs.len() == n);
    assert forall|k: int| 0 <= k < n implies #[trigger] batch_tasks(bs[k]) == seq![o[k]] by {
        assert(bs[k] == BatchView::Single(o.drop_last()[k]));
    }
    assert forall|k: int, x: Seq<char>, d: Seq<char>|
        0 <= k < bs.len() && #[trigger] batch_tasks(bs[k]).contains(x) && #[trigger] deps_of(g, x).contains(d) implies exists|j: int|
            0 <= j < k && #[trigger] batch_tasks(bs[j]).contains(d) by {
        assert(batch_tasks(bs[k]) == seq![o[k]]);
        assert(seq![o[k]][0] == o[k]);
        assert(x == o[k]);
        assert(deps_of(g, o[k]).contains(d));
        assert(exists|j: int| 0 <= j < k && o[j] == d);
        let j = choose|j: int| 0 <= j < k && o[j] == d;
        assert(batch_tasks(bs[j]) == seq![o[j]]);
        assert(batch_tasks(bs[j])[0] == d);
        assert(batch_tasks(bs[j]).contains(d));
    }
    assert forall|k1: int, k2: int, x: Seq<char>|
        0 <= k1 < k2 < bs.len() && #[trigger] batch_tasks(bs[k1]).contains(x) implies !(#[trigger] batch_tasks(bs[k2])).contains(x) by {
        assert(batch_tasks(bs[k1]) == seq![o[k1]]);
        assert(batch_tasks(bs[k2]) == seq![o[k2]]);
        assert(o[k1] != o[k2]);
    }
    assert forall|k: int| 0 <= k < bs.len() implies (#[trigger] batch_tasks(bs[k])).no_duplicates() by {
        assert(batch_tasks(bs[k]) == seq![o[k]]);
    }
    assert forall|x: Seq<char>| #[trigger] runs_task(bs, x) <==> (reachable(g, t, x) && x != t) by {
        if runs_task(bs, x) {
            let k = choose|k: int| 0 <= k < bs.len() && #[trigger] batch_tasks(bs[k]).contains(x);
            assert(batch_tasks(bs[k]) == seq![o[k]]);
            assert(seq![o[k]][0] == o[k]);
            assert(x == o[k]);
            assert(o.contains(x));
            assert(o[k] != o[n]);
            assert(o[n] == t);
        }
        if reachable(g, t, x) && x != t {
            assert(o.contains(x));
            let k = choose|k: int| 0 <= k < o.len() && o[k] == x;
            assert(k != n);
            assert(batch_tasks(bs[k]) == seq![o[k]]);
            assert(batch_tasks(bs[k])[0] == x);
            assert(batch_tasks(bs[k]).contains(x));
            assert(runs_task(bs, x));
        }
    }
}

proof fn lemma_parallel_plan_stages(ss: Seq<Seq<Seq<char>>>, jobs: Option<usize>, available: nat)
    requires
        forall|k: int| 0 <= k < ss.len() ==> #[trigger] ss[k].len() > 0,
    ensures
        ss.len() >= 1 ==> parallel_plan(ss, jobs, available).len() == ss.len() - 1,
        forall|k: int| 0 <= k < ss.len() - 1 ==> #[trigger] batch_tasks(parallel_plan(ss, jobs, available)[k]) == ss[k],
    decreases ss.len(),
{
    if ss.len() > 1 {
        let init = ss.drop_last();
        assert forall|k: int| 0 <= k < init.len() implies #[trigger] init[k].len() > 0 by {
            assert(init[k] == ss[k]);
        }
        lemma_parallel_plan_stages(init, jobs, available);
        let last = ss[ss.len() - 2];
        assert(last.len() > 0);
        let sb = stage_batch(last, jobs, available);
        assert(sb.len() == 1);
        assert(batch_tasks(sb[0]) == last) by {
            if last.len() == 1 {
                assert(seq![last[0]] =~= last);
            }
        }
        let p = parallel_plan(ss, jobs, available);
        assert(p == parallel_plan(init, jobs, available) + sb);
        assert forall|k: int| 0 <= k < ss.len() - 1 implies #[trigger] batch_tasks(p[k]) == ss[k] by {
            if k < ss.len() - 2 {
                assert(p[k] == parallel_plan(init, jobs, available)[k]);
                assert(init[k] == ss[k]);
            } else {
                assert(p[k] == sb[0]);
            }
        }
    }
}

proof fn lemma_parallel_batches(g: Seq<(String, Vec<String>)>, t: Seq<char>, ss: Seq<Seq<Seq<char>>>, jobs: Option<usize>, available: nat)
    requires
        stages_ok(g, t, ss),
    ensures
        dependencies_earlier(g, parallel_plan(ss, jobs, available)),
        each_once(parallel_plan(ss, jobs, available)),
        forall|x: Seq<char>| #[trigger] runs_task(parallel_plan(ss, jobs, available), x) <==> (reachable(g, t, x) && x != t),
{
    crate::graph::lemma_stages_minimal(g, t, ss);
    lemma_parallel_plan_stages(ss, jobs, available);
    let bs = parallel_plan(ss, jobs, available);
    let n = ss.len() - 1;
    assert(ss[n] == seq![t]);
    assert forall|k: int, x: Seq<char>, d: Seq<char>|
        0 <= k < bs.len() && #[trigger] batch_tasks(bs[k]).contains(x) && #[trigger] deps_of(g, x).contains(d) implies exists|j: int|
            0 <= j < k && #[trigger] batch_tasks(bs[j]).contains(d) by {
        assert(batch_tasks(bs[k]) == ss[k]);
        assert(ss[k].contains(x));
        let j = choose|j: int| 0 <= j < k && ss[j].contains(d);
        assert(batch_tasks(bs[j]) == ss[j]);
    }
    assert forall|k: int| 0 <= k < bs.len() implies (#[trigger] batch_tasks(bs[k])).no_duplicates() by {
        assert(batch_tasks(bs[k]) == ss[k]);
        assert(strictly_sorted(ss[k]));
        assert forall|i: int, j: int| 0 <= i < ss[k].len() && 0 <= j < ss[k].len() && i != j implies ss[k][i] != ss[k][j] by {
            if i < j {
                assert(crate::order::lex_lt(ss[k][i], ss[k][j]));
                crate::order::lemma_lex_irreflexive(ss[k][i]);
            } else {
                assert(crate::order::lex_lt(ss[k][j], ss[k][i]));
                crate::order::lemma_lex_irreflexive(ss[k][j]);
            }
        }
    }
    assert forall|k1: int, k2: int, x: Seq<char>|
        0 <= k1 < k2 < bs.len() && #[trigger] batch_tasks(bs[k1]).contains(x) implies !(#[trigger] batch_tasks(bs[k2])).contains(x) by {
        assert(batch_tasks(bs[k1]) == ss[k1]);
        assert(batch_tasks(bs[k2]) == ss[k2]);
        if ss[k2].contains(x) {
            assert(ss[k1].contains(x));
        }
    }
    assert forall|x: Seq<char>| #[trigger] runs_task(bs, x) <==> (reachable(g, t, x) && x != t) by {
        if runs_task(bs, x) {
            let k = choose|k: int| 0 <= k < bs.len() && #[trigger] batch_tasks(bs[k]).contains(x);
            assert(batch_tasks(bs[k]) == ss[k]);
            assert(ss[k].contains(x));
            if x == t {
                assert(ss[n][0] == t);
                assert(ss[n].contains(x));
            }
        }
        if reachable(g, t, x) && x != t {
            let k = choose|k: int| 0 <= k < ss.len() && #[trigger] ss[k].contains(x);
            if k == n {
                let i = choose|i: int| 0 <= i < ss[n].len() && ss[n][i] == x;
                assert(ss[n][i] == t);
            }
            assert(batch_tasks(bs[k]) == ss[k]);
        }
    }
}

/// Running the dependency batches planned for `t`, which finish with `failures` in turn
/// (`None` for a success): the batches started are the first ones in order, up to and
/// including the first that fails; every dependency of a function started was run by an
/// earlier batch; no function runs twice; `t` itself is not run; and when no batch fails,
/// every function that `t` depends on (directly or not) is run.
pub proof fn lemma_dependency_run(
    g: Seq<(String, Vec<String>)>,
    t: Seq<char>,
    bs: Seq<BatchView>,
    jobs: Option<usize>,
    available: nat,
    failures: Seq<Option<Seq<char>>>,
)
    requires
        planned_for(g, t, bs, jobs, available),
    ensures
        ({
            let run = started(RunView { batches: bs, next: 0, error: None }, failures);
            &&& run == bs.take(started_count(bs.len(), failures) as int)
            &&& forall|i: int| 0 <= i < failures.len() && #[trigger] failures[i] is Some ==> run.len() <= i + 1
            &&& dependencies_earlier(g, run)
            &&& each_once(run)
            &&& !runs_task(run, t)
            &&& (run.len() == bs.len() ==> forall|x: Seq<char>| #[trigger] reachable(g, t, x) && x != t ==> runs_task(run, x))
        }),
{
    if exists|o: Seq<Seq<char>>|
        {
            &&& dependencies_first(g, o)
            &&& o.len() > 0 && o.last() == t
            &&& forall|x: Seq<char>| #[trigger] o.contains(x) <==> reachable(g, t, x)
            &&& bs == sequential_plan(o)
        } {
        let o = choose|o: Seq<Seq<char>>|
            {
                &&& dependencies_first(g, o)
                &&& o.len() > 0 && o.last() == t
                &&& forall|x: Seq<char>| #[trigger] o.contains(x) <==> reachable(g, t, x)
                &&& bs == sequential_plan(o)
            };
        lemma_sequential_batches(g, t, o);
    } else {
        let ss = choose|ss: Seq<Seq<Seq<char>>>| stages_ok(g, t, ss) && bs == parallel_plan(ss, jobs, available);
        lemma_parallel_batches(g, t, ss, jobs, available);
    }
    lemma_run_stops_at_first_failure(bs, failures);
    let m = started_count(bs.len(), failures) as int;
    let run = bs.take(m);
    assert forall|k: int, x: Seq<char>, d: Seq<char>|
        0 <= k < run.len() && #[trigger] batch_tasks(run[k]).contains(x) && #[trigger] deps_of(g, x).contains(d) implies exists|j: int|
            0 <= j < k && #[trigger] batch_tasks(run[j]).contains(d) by {
        assert(run[k] == bs[k]);
        assert(batch_tasks(bs[k]).contains(x));
        let j = choose|j: int| 0 <= j < k && #[trigger] batch_tasks(bs[j]).contains(d);
        assert(run[j] == bs[j]);
    }
    assert forall|k: int| 0 <= k < run.len() implies (#[trigger] batch_tasks(run[k])).no_duplicates() by {
        assert(run[k] == bs[k]);
        assert(batch_tasks(bs[k]).no_duplicates());
    }
    assert forall|k1: int, k2: int, x: Seq<char>|
        0 <= k1 < k2 < run.len() && #[trigger] batch_tasks(run[k1]).contains(x) implies !(#[trigger] batch_tasks(run[k2])).contains(x) by {
        assert(run[k1] == bs[k1] && run[k2] == bs[k2]);
        assert(batch_tasks(bs[k1]).contains(x));
    }
    if runs_task(run, t) {
        let k = choose|k: int| 0 <= k < run.len() && #[trigger] batch_tasks(run[k]).contains(t);
        assert(run[k] == bs[k]);
        assert(batch_tasks(bs[k]).contains(t));
        assert(runs_task(bs, t));
    }
    if run.len() == bs.len() {
        assert(run =~= bs);
        assert forall|x: Seq<char>| #[trigger] reachable(g, t, x) && x != t implies runs_task(run, x) by {
            assert(runs_task(bs, x));
        }
    }
}

} // verus!
