//! Dependency graphs of tasks: cycle detection, execution order and parallel stages.
//!
//! A graph is a table from a task's name to the names of the tasks it depends on; a name
//! that is not a key has no dependencies.
use vstd::prelude::*;
use crate::order::{insert_sorted, strictly_sorted};
use crate::table::{key_pos, keys_of, keys_unique, lemma_key_pos, lemma_key_pos_unique, lemma_lookup_store, lookup, store, Table};
use crate::interpreter::preamble::contains_name;
use crate::text::{from_chars, push_str, string_views, to_chars};

verus! {

/// The dependencies of `n`.
pub open spec fn deps_of(g: Seq<(String, Vec<String>)>, n: Seq<char>) -> Seq<Seq<char>> {
    match lookup(g, n) {
        Some(v) => string_views(v@),
        None => Seq::empty(),
    }
}

/// `a` depends on `b`.
pub open spec fn edge(g: Seq<(String, Vec<String>)>, a: Seq<char>, b: Seq<char>) -> bool {
    deps_of(g, a).contains(b)
}

/// Each task in `p` depends on the next one.
pub open spec fn is_path(g: Seq<(String, Vec<String>)>, p: Seq<Seq<char>>) -> bool {
    forall|i: int| 0 <= i < p.len() - 1 ==> edge(g, #[trigger] p[i], p[i + 1])
}

/// `b` is reached from `a` by following dependencies (possibly none).
pub open spec fn reachable(g: Seq<(String, Vec<String>)>, a: Seq<char>, b: Seq<char>) -> bool {
    exists|p: Seq<Seq<char>>| #[trigger] is_path(g, p) && p.len() >= 1 && p[0] == a && p.last() == b
}

/// A chain of dependencies from `t` comes back to a task it already passed.
pub open spec fn cycle_from(g: Seq<(String, Vec<String>)>, t: Seq<char>) -> bool {
    exists|p: Seq<Seq<char>>, k: int|
        #![trigger is_path(g, p), p[k]]
        is_path(g, p) && p.len() >= 2 && p[0] == t && 0 <= k < p.len() - 1 && p[k] == p.last()
}

/// A chain of dependencies from `t` comes back to `x`: `x` lies on a cycle that `t`
/// leads to.
pub open spec fn cycle_through(g: Seq<(String, Vec<String>)>, t: Seq<char>, x: Seq<char>) -> bool {
    exists|p: Seq<Seq<char>>, k: int|
        #![trigger is_path(g, p), p[k]]
        is_path(g, p) && p.len() >= 2 && p[0] == t && 0 <= k < p.len() - 1 && p[k] == x && p.last() == x
}

/// The error for a cycle through `node`.
pub open spec fn cycle_error(node: Seq<char>) -> Seq<char> {
    "Circular dependency detected involving task '"@ + node + "'"@
}

/// Every task that `order` holds once, and each after all its dependencies.
pub open spec fn dependencies_first(g: Seq<(String, Vec<String>)>, order: Seq<Seq<char>>) -> bool {
    &&& order.no_duplicates()
    &&& forall|i: int, d: Seq<char>|
        0 <= i < order.len() && #[trigger] deps_of(g, order[i]).contains(d) ==> exists|j: int|
            0 <= j < i && order[j] == d
}

/// The level of a task: 0 without dependencies, else one more than the highest level
/// among its dependencies.
pub open spec fn level_ok(g: Seq<(String, Vec<String>)>, levels: Seq<(String, usize)>, n: Seq<char>) -> bool {
    match lookup(levels, n) {
        None => false,
        Some(lv) => {
            &&& deps_of(g, n).len() == 0 ==> lv == 0
            &&& forall|d: Seq<char>| #[trigger] deps_of(g, n).contains(d) ==> (lookup(levels, d) matches Some(ld) && ld < lv)
            &&& deps_of(g, n).len() > 0 ==> exists|d: Seq<char>| #[trigger] deps_of(g, n).contains(d) && lookup(levels, d)
                == Some((lv - 1) as usize)
        },
    }
}

/// Names of a graph: the target, the tasks with an entry and all their dependencies.
pub open spec fn universe(g: Seq<(String, Vec<String>)>, t: Seq<char>) -> Set<Seq<char>> {
    Set::new(|x: Seq<char>| x == t || keys_of(g).contains(x) || exists|i: int| 0 <= i < g.len() && string_views(g[i].1@).contains(x))
}

proof fn lemma_distinct_within(a: Seq<Seq<char>>, u: Set<Seq<char>>)
    requires
        a.no_duplicates(),
        u.finite(),
        forall|i: int| 0 <= i < a.len() ==> u.contains(#[trigger] a[i]),
    ensures
        a.len() <= u.len(),
{
    a.unique_seq_to_set();
    assert(a.to_set().subset_of(u));
    vstd::set_lib::lemma_len_subset(a.to_set(), u);
}

proof fn lemma_universe_finite(g: Seq<(String, Vec<String>)>, t: Seq<char>)
    ensures
        universe(g, t).finite(),
{
    let all = flat_names(g);
    lemma_flat_names(g);
    let s = seq![t] + keys_of(g) + all;
    assert(universe(g, t) =~= s.to_set()) by {
        assert forall|x: Seq<char>| universe(g, t).contains(x) implies s.to_set().contains(x) by {
            if x == t {
                assert(s[0] == x);
            } else if keys_of(g).contains(x) {
                let i = choose|i: int| 0 <= i < keys_of(g).len() && keys_of(g)[i] == x;
                assert(s[1 + i] == x);
            } else {
                let i = choose|i: int| 0 <= i < g.len() && string_views(g[i].1@).contains(x);
                assert(all.contains(x));
                let j = choose|j: int| 0 <= j < all.len() && all[j] == x;
                assert(s[1 + keys_of(g).len() + j] == x);
            }
        }
        assert forall|x: Seq<char>| s.to_set().contains(x) implies universe(g, t).contains(x) by {
            let i = choose|i: int| 0 <= i < s.len() && s[i] == x;
            if i == 0 {
            } else if i < 1 + keys_of(g).len() {
                assert(keys_of(g)[i - 1] == x);
            } else {
                assert(all[i - 1 - keys_of(g).len()] == x);
                assert(all.contains(x));
            }
        }
    }
    vstd::seq_lib::seq_to_set_is_finite(s);
}

/// All dependency names, entry by entry.
pub open spec fn flat_names(g: Seq<(String, Vec<String>)>) -> Seq<Seq<char>>
    decreases g.len(),
{
    if g.len() == 0 { Seq::empty() } else { flat_names(g.drop_last()) + string_views(g.last().1@) }
}

proof fn lemma_flat_names(g: Seq<(String, Vec<String>)>)
    ensures
        forall|x: Seq<char>| flat_names(g).contains(x) <==> exists|i: int| 0 <= i < g.len() && string_views(g[i].1@).contains(x),
    decreases g.len(),
{
    if g.len() > 0 {
        lemma_flat_names(g.drop_last());
        let pre = flat_names(g.drop_last());
        let last = string_views(g.last().1@);
        assert forall|x: Seq<char>| flat_names(g).contains(x) <==> exists|i: int| 0 <= i < g.len() && string_views(g[i].1@).contains(x) by {
            if flat_names(g).contains(x) {
                let j = choose|j: int| 0 <= j < flat_names(g).len() && flat_names(g)[j] == x;
                if j < pre.len() {
                    assert(pre[j] == x);
                    assert(pre.contains(x));
                    let i = choose|i: int| 0 <= i < g.drop_last().len() && string_views(g.drop_last()[i].1@).contains(x);
                    assert(g[i] == g.drop_last()[i]);
                } else {
                    assert(last[j - pre.len()] == x);
                    assert(string_views(g[g.len() - 1].1@).contains(x));
                }
            }
            if exists|i: int| 0 <= i < g.len() && string_views(g[i].1@).contains(x) {
                let i = choose|i: int| 0 <= i < g.len() && string_views(g[i].1@).contains(x);
                if i < g.len() - 1 {
                    assert(g.drop_last()[i] == g[i]);
                    assert(pre.contains(x));
                    let j = choose|j: int| 0 <= j < pre.len() && pre[j] == x;
                    assert(flat_names(g)[j] == x);
                } else {
                    let j = choose|j: int| 0 <= j < last.len() && last[j] == x;
                    assert(flat_names(g)[pre.len() + j] == x);
                }
            }
        }
    }
}

proof fn lemma_deps_in_universe(g: Seq<(String, Vec<String>)>, t: Seq<char>, n: Seq<char>, d: Seq<char>)
    requires
        deps_of(g, n).contains(d),
    ensures
        universe(g, t).contains(d),
{
    lemma_key_pos(g, n);
    let i = key_pos(g, n)->0;
    assert(string_views(g[i].1@).contains(d));
}

/// The finished tasks: each once, after its dependencies, with its level recorded (at
/// most its position), and reached from `t`.
#[verifier::opaque]
pub open spec fn finished_ok(
    g: Seq<(String, Vec<String>)>,
    t: Seq<char>,
    os: Seq<Seq<char>>,
    lv: Seq<(String, usize)>,
) -> bool {
    &&& dependencies_first(g, os)
    &&& keys_unique(lv)
    &&& forall|x: Seq<char>| (#[trigger] lookup(lv, x) is Some) == os.contains(x)
    &&& forall|i: int| 0 <= i < os.len() ==> level_ok(g, lv, #[trigger] os[i]) && lookup(lv, os[i])->0 <= i
    &&& forall|i: int| 0 <= i < os.len() ==> reachable(g, t, #[trigger] os[i])
}

/// The stack of tasks being visited: a path from `t`, each task once, none finished.
#[verifier::opaque]
pub open spec fn stack_ok(
    g: Seq<(String, Vec<String>)>,
    t: Seq<char>,
    vs: Seq<Seq<char>>,
    os: Seq<Seq<char>>,
) -> bool {
    &&& vs.len() > 0 ==> vs[0] == t
    &&& is_path(g, vs)
    &&& vs.no_duplicates()
    &&& forall|i: int| 0 <= i < vs.len() ==> universe(g, t).contains(#[trigger] vs[i])
    &&& forall|i: int, j: int| 0 <= i < os.len() && 0 <= j < vs.len() ==> os[i] != vs[j]
}

proof fn lemma_finished_lookup(g: Seq<(String, Vec<String>)>, t: Seq<char>, os: Seq<Seq<char>>, lv: Seq<(String, usize)>, x: Seq<char>)
    requires
        finished_ok(g, t, os, lv),
    ensures
        (lookup(lv, x) is Some) == os.contains(x),
        keys_unique(lv),
        os.contains(x) ==> (lookup(lv, x) matches Some(l) && l < os.len()),
{
    reveal(finished_ok);
    if os.contains(x) {
        let j = choose|j: int| 0 <= j < os.len() && os[j] == x;
        assert(level_ok(g, lv, os[j]));
    }
}

proof fn lemma_push_stack(g: Seq<(String, Vec<String>)>, t: Seq<char>, vs: Seq<Seq<char>>, os: Seq<Seq<char>>, node: Seq<char>)
    requires
        stack_ok(g, t, vs, os),
        vs.len() == 0 ==> node == t,
        vs.len() > 0 ==> edge(g, vs.last(), node),
        !vs.contains(node),
        !os.contains(node),
        universe(g, t).contains(node),
    ensures
        stack_ok(g, t, vs.push(node), os),
        vs.push(node).len() <= universe(g, t).len(),
        universe(g, t).finite(),
{
    reveal(stack_ok);
    let vs1 = vs.push(node);
    lemma_universe_finite(g, t);
    assert(vs1.no_duplicates()) by {
        assert forall|i: int, j: int| 0 <= i < j < vs1.len() implies vs1[i] != vs1[j] by {
            if j == vs.len() {
                assert(vs.contains(vs1[i]));
            }
        }
    }
    assert(is_path(g, vs1)) by {
        assert forall|i: int| 0 <= i < vs1.len() - 1 implies edge(g, #[trigger] vs1[i], vs1[i + 1]) by {
            if i == vs.len() - 1 {
            } else {
                assert(vs1[i] == vs[i] && vs1[i + 1] == vs[i + 1]);
            }
        }
    }
    assert forall|i: int, j: int| 0 <= i < os.len() && 0 <= j < vs1.len() implies os[i] != vs1[j] by {
        if j == vs.len() {
            if os[i] == node {
                assert(os.contains(node));
            }
        }
    }
    lemma_distinct_within(vs1, universe(g, t));
}

proof fn lemma_cycle(g: Seq<(String, Vec<String>)>, t: Seq<char>, vs: Seq<Seq<char>>, os: Seq<Seq<char>>, d: Seq<char>)
    requires
        stack_ok(g, t, vs, os),
        vs.len() > 0,
        edge(g, vs.last(), d),
        vs.contains(d),
    ensures
        cycle_from(g, t),
        cycle_through(g, t, d),
{
    reveal(stack_ok);
    let k = choose|k: int| 0 <= k < vs.len() && vs[k] == d;
    let p = vs.push(d);
    assert(is_path(g, p)) by {
        assert forall|m: int| 0 <= m < p.len() - 1 implies edge(g, #[trigger] p[m], p[m + 1]) by {
            if m == vs.len() - 1 {
            } else {
                assert(p[m] == vs[m] && p[m + 1] == vs[m + 1]);
            }
        }
    }
    assert(p[k] == p.last());
    assert(p[0] == t);
}

proof fn lemma_not_finished_on_stack(g: Seq<(String, Vec<String>)>, t: Seq<char>, vs: Seq<Seq<char>>, os: Seq<Seq<char>>)
    requires
        stack_ok(g, t, vs, os),
        vs.len() > 0,
    ensures
        !os.contains(vs.last()),
{
    reveal(stack_ok);
    if os.contains(vs.last()) {
        let j = choose|j: int| 0 <= j < os.len() && os[j] == vs.last();
        assert(os[j] != vs[vs.len() - 1]);
    }
}

proof fn lemma_pop_stack(g: Seq<(String, Vec<String>)>, t: Seq<char>, vs: Seq<Seq<char>>, os: Seq<Seq<char>>, node: Seq<char>)
    requires
        stack_ok(g, t, vs.push(node), os),
    ensures
        stack_ok(g, t, vs, os.push(node)),
        is_path(g, vs.push(node)),
        vs.push(node)[0] == t,
{
    reveal(stack_ok);
    let vs1 = vs.push(node);
    assert(is_path(g, vs)) by {
        assert forall|i: int| 0 <= i < vs.len() - 1 implies edge(g, #[trigger] vs[i], vs[i + 1]) by {
            assert(vs1[i] == vs[i] && vs1[i + 1] == vs[i + 1]);
        }
    }
    assert(vs.no_duplicates()) by {
        assert forall|i: int, j: int| 0 <= i < j < vs.len() implies vs[i] != vs[j] by {
            assert(vs1[i] != vs1[j]);
        }
    }
    assert forall|i: int| 0 <= i < vs.len() implies universe(g, t).contains(#[trigger] vs[i]) by {
        assert(vs1[i] == vs[i]);
    }
    let nos = os.push(node);
    assert forall|i: int, j: int| 0 <= i < nos.len() && 0 <= j < vs.len() implies nos[i] != vs[j] by {
        assert(vs1[j] == vs[j]);
        if i == os.len() {
            assert(vs1[vs.len() as int] == node);
            assert(vs1[j] != vs1[vs.len() as int]);
        }
    }
    if vs.len() > 0 {
        assert(vs1[0] == vs[0]);
    }
}

proof fn lemma_finished_extend(
    g: Seq<(String, Vec<String>)>,
    t: Seq<char>,
    os: Seq<Seq<char>>,
    lv: Seq<(String, usize)>,
    node: String,
    level: usize,
    vs: Seq<Seq<char>>,
)
    requires
        finished_ok(g, t, os, lv),
        !os.contains(node@),
        vs.len() > 0 && vs[0] == t && is_path(g, vs) && vs.last() == node@,
        level <= os.len(),
        forall|d: Seq<char>| #[trigger] deps_of(g, node@).contains(d) ==> os.contains(d),
        deps_of(g, node@).len() == 0 ==> level == 0,
        forall|d: Seq<char>| #[trigger] deps_of(g, node@).contains(d) ==> (lookup(lv, d) matches Some(ld) && ld < level),
        deps_of(g, node@).len() > 0 ==> exists|d: Seq<char>| #[trigger] deps_of(g, node@).contains(d) && lookup(lv, d) == Some((level - 1) as usize),
    ensures
        finished_ok(g, t, os.push(node@), store(lv, node, level)),
        forall|x: Seq<char>| lookup(lv, x) is Some ==> #[trigger] lookup(store(lv, node, level), x) == lookup(lv, x),
{
    reveal(finished_ok);
    let nos = os.push(node@);
    let nlv = store(lv, node, level);
    assert forall|x: Seq<char>| lookup(nlv, x) == if x == node@ { Some(level) } else { lookup(lv, x) } by {
        lemma_lookup_store(lv, node, level, x);
    }
    lemma_key_pos(lv, node@);
    assert(keys_unique(nlv)) by {
        assert(lookup(lv, node@) is None);
        assert forall|i: int, j: int| 0 <= i < j < nlv.len() implies nlv[i].0@ != nlv[j].0@ by {
            if j == lv.len() {
                assert(nlv[i] == lv[i]);
            } else {
                assert(nlv[i] == lv[i] && nlv[j] == lv[j]);
            }
        }
    }
    assert(nos.no_duplicates()) by {
        assert forall|i: int, j: int| 0 <= i < j < nos.len() implies nos[i] != nos[j] by {
            if j == os.len() {
                assert(os.contains(nos[i]));
            }
        }
    }
    assert forall|i: int, d: Seq<char>| 0 <= i < nos.len() && #[trigger] deps_of(g, nos[i]).contains(d) implies exists|j: int|
        0 <= j < i && nos[j] == d by {
        if i == os.len() {
            assert(os.contains(d));
            let j = choose|j: int| 0 <= j < os.len() && os[j] == d;
            assert(nos[j] == d);
        } else {
            assert(nos[i] == os[i]);
            let j = choose|j: int| 0 <= j < i && os[j] == d;
            assert(nos[j] == d);
        }
    }
    assert forall|x: Seq<char>| (#[trigger] lookup(nlv, x) is Some) == nos.contains(x) by {
        if x == node@ {
            assert(nos[os.len() as int] == x);
        } else {
            if os.contains(x) {
                let j = choose|j: int| 0 <= j < os.len() && os[j] == x;
                assert(nos[j] == x);
            }
            if nos.contains(x) {
                let j = choose|j: int| 0 <= j < nos.len() && nos[j] == x;
                assert(os[j] == x);
            }
        }
    }
    assert forall|i: int| 0 <= i < nos.len() implies level_ok(g, nlv, #[trigger] nos[i]) && lookup(nlv, nos[i])->0 <= i by {
        if i == os.len() {
            assert forall|d: Seq<char>| #[trigger] deps_of(g, node@).contains(d) implies (lookup(nlv, d) matches Some(ld) && ld < level) by {
                assert(os.contains(d));
                assert(d != node@);
            }
            if deps_of(g, node@).len() > 0 {
                let d = choose|d: Seq<char>| #[trigger] deps_of(g, node@).contains(d) && lookup(lv, d) == Some((level - 1) as usize);
                assert(os.contains(d));
                assert(d != node@);
                assert(lookup(nlv, d) == Some((level - 1) as usize));
            }
        } else {
            let x = os[i];
            assert(nos[i] == x);
            assert(x != node@);
            assert(level_ok(g, lv, x));
            assert forall|d: Seq<char>| #[trigger] deps_of(g, x).contains(d) implies lookup(nlv, d) == lookup(lv, d) by {
                let j = choose|j: int| 0 <= j < i && os[j] == d;
                assert(d != node@);
            }
            if deps_of(g, x).len() > 0 {
                let lx = lookup(lv, x)->0;
                let d = choose|d: Seq<char>| #[trigger] deps_of(g, x).contains(d) && lookup(lv, d) == Some((lx - 1) as usize);
                assert(lookup(nlv, d) == lookup(lv, d));
            }
        }
    }
    assert forall|i: int| 0 <= i < nos.len() implies reachable(g, t, #[trigger] nos[i]) by {
        if i == os.len() {
            assert(is_path(g, vs) && vs.len() >= 1 && vs[0] == t && vs.last() == nos[i]);
        } else {
            assert(nos[i] == os[i]);
        }
    }
}

/// The depth-first visit of `node` with `stack` the tasks being visited and `done` the
/// tasks finished, in the order they finished: a finished task is left as it is;
/// otherwise its dependencies are visited in their order, then it is finished. A
/// dependency found on the stack stops the visit and is named (`fuel` bounds the depth).
pub open spec fn dfs_visit(
    g: Seq<(String, Vec<String>)>,
    node: Seq<char>,
    stack: Seq<Seq<char>>,
    done: Seq<Seq<char>>,
    fuel: nat,
) -> Result<Seq<Seq<char>>, Seq<char>>
    decreases fuel, 0nat, 0nat,
{
    if done.contains(node) {
        Ok(done)
    } else if fuel == 0 {
        Err(node)
    } else {
        dfs_deps(g, node, stack.push(node), done, 0, (fuel - 1) as nat)
    }
}

/// The visit of the dependencies of `node` from the `i`-th on (see `dfs_visit`).
pub open spec fn dfs_deps(
    g: Seq<(String, Vec<String>)>,
    node: Seq<char>,
    stack: Seq<Seq<char>>,
    done: Seq<Seq<char>>,
    i: int,
    fuel: nat,
) -> Result<Seq<Seq<char>>, Seq<char>>
    decreases fuel, 1nat, deps_of(g, node).len() - i,
{
    let ds = deps_of(g, node);
    if i < 0 || i >= ds.len() {
        Ok(done.push(node))
    } else if stack.contains(ds[i]) {
        Err(ds[i])
    } else {
        match dfs_visit(g, ds[i], stack, done, fuel) {
            Ok(d2) => dfs_deps(g, node, stack, d2, i + 1, fuel),
            Err(e) => Err(e),
        }
    }
}

/// The order in which the dependencies of `t` and `t` itself finish in a depth-first
/// visit from `t`, or the task found twice on a chain of dependencies.
pub open spec fn dfs_order(g: Seq<(String, Vec<String>)>, t: Seq<char>) -> Result<Seq<Seq<char>>, Seq<char>> {
    dfs_visit(g, t, Seq::empty(), Seq::empty(), universe(g, t).len())
}

/// Depth-first visit of `node`: its dependencies are finished first; a dependency found
/// on the stack of tasks being visited is a cycle.
fn dfs(
    g: &Table<Vec<String>>,
    node: &str,
    visiting: &mut Vec<String>,
    levels: &mut Table<usize>,
    order: &mut Vec<String>,
    Ghost(t): Ghost<Seq<char>>,
) -> (r: Result<(), String>)
    requires
        string_views(old(visiting)@).len() == 0 ==> node@ == t,
        string_views(old(visiting)@).len() > 0 ==> edge(g.entries@, string_views(old(visiting)@).last(), node@),
        stack_ok(g.entries@, t, string_views(old(visiting)@), string_views(old(order)@)),
        !string_views(old(visiting)@).contains(node@),
        universe(g.entries@, t).contains(node@),
        finished_ok(g.entries@, t, string_views(old(order)@), old(levels).entries@),
    ensures
        match r {
            Ok(()) => {
                &&& string_views(final(visiting)@) == string_views(old(visiting)@)
                &&& finished_ok(g.entries@, t, string_views(final(order)@), final(levels).entries@)
                &&& string_views(final(order)@).contains(node@)
                &&& string_views(final(order)@).take(old(order)@.len() as int) == string_views(old(order)@)
                &&& old(order)@.len() <= final(order)@.len()
                &&& stack_ok(g.entries@, t, string_views(old(visiting)@), string_views(final(order)@))
                &&& forall|x: Seq<char>| lookup(old(levels).entries@, x) is Some ==> #[trigger] lookup(final(levels).entries@, x) == lookup(old(levels).entries@, x)
                &&& !string_views(old(order)@).contains(node@) ==> string_views(final(order)@).last() == node@
            },
            Err(e) => cycle_from(g.entries@, t) && exists|x: Seq<char>| #[trigger] cycle_through(g.entries@, t, x) && e@ == cycle_error(x),
        },
        r matches Ok(()) ==> dfs_visit(g.entries@, node@, string_views(old(visiting)@), string_views(old(order)@), (universe(
            g.entries@,
            t,
        ).len() - old(visiting)@.len()) as nat) == Ok::<Seq<Seq<char>>, Seq<char>>(string_views(final(order)@)),
        r matches Err(e) ==> dfs_visit(g.entries@, node@, string_views(old(visiting)@), string_views(old(order)@), (universe(
            g.entries@,
            t,
        ).len() - old(visiting)@.len()) as nat) matches Err(x) && e@ == cycle_error(x),
    decreases universe(g.entries@, t).len() - old(visiting)@.len(),
{
    let ghost gv = g.entries@;
    let ghost vs0 = string_views(visiting@);
    let ghost os0 = string_views(order@);
    let ghost lv0 = levels.entries@;
    let nc = to_chars(node);
    proof { lemma_finished_lookup(gv, t, os0, lv0, node@); }
    if levels.get(nc.as_slice()).is_some() {
        assert(os0.take(order@.len() as int) =~= os0);
        return Ok(());
    }
    let key = node.to_string();
    visiting.push(key.clone());
    let ghost vs1 = string_views(visiting@);
    assert(vs1 =~= vs0.push(node@));
    proof { lemma_push_stack(gv, t, vs0, os0, node@); }
    let ghost fuel: nat = (universe(gv, t).len() - vs1.len()) as nat;
    assert(dfs_visit(gv, node@, vs0, os0, fuel + 1) == dfs_deps(gv, node@, vs1, os0, 0, fuel));
    let deps: Vec<String> = match g.get(nc.as_slice()) {
        Some(v) => crate::interpreter::copy_strings(v.as_slice()),
        None => Vec::new(),
    };
    let ghost dv = string_views(deps@);
    assert(dv =~= deps_of(gv, node@));
    let mut level: usize = 0;
    let mut i: usize = 0;
    assert(os0.take(os0.len() as int) =~= os0);
    while i < deps.len()
        invariant
            gv == g.entries@,
            dv == string_views(deps@),
            dv == deps_of(gv, node@),
            i <= deps@.len(),
            string_views(visiting@) == vs1,
            vs1 == vs0.push(node@),
            vs0 == string_views(old(visiting)@),
            vs1.len() <= universe(gv, t).len(),
            universe(gv, t).finite(),
            stack_ok(gv, t, vs1, string_views(order@)),
            finished_ok(gv, t, string_views(order@), levels.entries@),
            string_views(order@).take(os0.len() as int) == os0,
            os0.len() <= order@.len(),
            forall|x: Seq<char>| lookup(lv0, x) is Some ==> #[trigger] lookup(levels.entries@, x) == lookup(lv0, x),
            fuel == universe(gv, t).len() - vs1.len(),
            dfs_visit(gv, node@, vs0, os0, fuel + 1) == dfs_deps(gv, node@, vs1, os0, 0, fuel),
            (universe(gv, t).len() - old(visiting)@.len()) as nat == fuel + 1,
            os0 == string_views(old(order)@),
            dfs_deps(gv, node@, vs1, os0, 0, fuel) == dfs_deps(gv, node@, vs1, string_views(order@), i as int, fuel),
            forall|k: int| 0 <= k < i ==> string_views(order@).contains(#[trigger] dv[k]),
            i == 0 ==> level == 0,
            forall|k: int| 0 <= k < i ==> (lookup(levels.entries@, #[trigger] dv[k]) matches Some(ld) && ld < level),
            i > 0 ==> exists|k: int| 0 <= k < i && lookup(levels.entries@, #[trigger] dv[k]) == Some((level - 1) as usize),
            level <= order@.len(),
        decreases deps@.len() - i,
    {
        let d = deps[i].as_str();
        let dc = to_chars(d);
        assert(dv[i as int] == d@);
        assert(dv.contains(d@));
        if contains_name(visiting, dc.as_slice()) {
            proof { lemma_cycle(gv, t, vs1, string_views(order@), d@); }
            let mut m = to_chars("Circular dependency detected involving task '");
            push_str(&mut m, d);
            push_str(&mut m, "'");
            assert(m@ == cycle_error(d@));
            assert(cycle_through(gv, t, d@));
            assert(vs1.contains(d@));
            assert(dfs_deps(gv, node@, vs1, string_views(order@), i as int, fuel) == Err::<Seq<Seq<char>>, Seq<char>>(d@));
            assert((universe(gv, t).len() - old(visiting)@.len()) as nat == fuel + 1);
            return Err(from_chars(m.as_slice()));
        }
        proof { lemma_deps_in_universe(gv, t, node@, d@); }
        let ghost os_before = string_views(order@);
        let ghost lv_before = levels.entries@;
        assert(visiting@.len() == string_views(visiting@).len());
        assert(visiting@.len() == vs0.len() + 1);
        assert(vs0.len() == old(visiting)@.len());
        assert(!vs1.contains(d@));
        let sub = dfs(g, d, visiting, levels, order, Ghost(t));
        match sub {
            Ok(()) => {},
            Err(e) => {
                proof {
                    let x = dfs_visit(gv, d@, vs1, os_before, fuel)->Err_0;
                    assert(dfs_visit(gv, d@, vs1, os_before, fuel) is Err);
                    assert(dfs_deps(gv, node@, vs1, os_before, i as int, fuel) == Err::<Seq<Seq<char>>, Seq<char>>(x));
                    assert((universe(gv, t).len() - old(visiting)@.len()) as nat == fuel + 1);
                }
                return Err(e);
            },
        }
        let ghost os_after = string_views(order@);
        proof { lemma_finished_lookup(gv, t, os_after, levels.entries@, d@); }
        let dl = match levels.get(dc.as_slice()) {
            Some(x) => *x,
            None => 0,
        };
        proof {
            assert(os_after.take(os0.len() as int) =~= os_before.take(os0.len() as int)) by {
                assert(os_after.take(os_before.len() as int) == os_before);
            }
            assert forall|k: int| 0 <= k < i implies os_after.contains(#[trigger] dv[k]) by {
                assert(os_before.contains(dv[k]));
                let j2 = choose|j2: int| 0 <= j2 < os_before.len() && os_before[j2] == dv[k];
                assert(os_after.take(os_before.len() as int)[j2] == dv[k]);
            }
            assert forall|k: int| 0 <= k < i implies lookup(levels.entries@, #[trigger] dv[k]) == lookup(lv_before, dv[k]) by {
                assert(lookup(lv_before, dv[k]) is Some);
            }
            assert forall|x: Seq<char>| lookup(lv0, x) is Some implies #[trigger] lookup(levels.entries@, x) == lookup(lv0, x) by {
                assert(lookup(lv_before, x) == lookup(lv0, x));
            }
        }
        let len_now = order.len();
        if i == 0 || dl + 1 > level {
            level = dl + 1;
        }
        i = i + 1;
    }
    let ghost before_pop = visiting@;
    visiting.pop();
    assert(visiting@ =~= before_pop.drop_last());
    assert(string_views(visiting@) =~= string_views(before_pop).drop_last());
    assert(string_views(visiting@) =~= vs0);
    let ghost os2 = string_views(order@);
    let ghost lv2 = levels.entries@;
    proof {
        assert forall|d: Seq<char>| #[trigger] deps_of(gv, node@).contains(d) implies os2.contains(d) by {
            let k = choose|k: int| 0 <= k < dv.len() && dv[k] == d;
        }
        assert forall|d: Seq<char>| #[trigger] deps_of(gv, node@).contains(d) implies (lookup(lv2, d) matches Some(ld) && ld < level) by {
            let k = choose|k: int| 0 <= k < dv.len() && dv[k] == d;
        }
        if dv.len() > 0 {
            let k = choose|k: int| 0 <= k < i && lookup(lv2, #[trigger] dv[k]) == Some((level - 1) as usize);
            assert(deps_of(gv, node@).contains(dv[k]));
        }
        assert(vs1.last() == node@);
        lemma_not_finished_on_stack(gv, t, vs1, os2);
        lemma_pop_stack(gv, t, vs0, os2, node@);
        lemma_finished_extend(gv, t, os2, lv2, key, level, vs1);
        lemma_finished_lookup(gv, t, os2, lv2, node@);
    }
    levels.insert(key.clone(), level);
    order.push(key);
    proof {
        assert(string_views(order@) =~= os2.push(node@));
        assert(string_views(order@)[os2.len() as int] == node@);
        assert(string_views(order@).take(os0.len() as int) =~= os2.take(os0.len() as int));
    }
    Ok(())
}

proof fn lemma_edge_finished(
    g: Seq<(String, Vec<String>)>,
    t: Seq<char>,
    os: Seq<Seq<char>>,
    lv: Seq<(String, usize)>,
    a: Seq<char>,
    b: Seq<char>,
)
    requires
        finished_ok(g, t, os, lv),
        os.contains(a),
        edge(g, a, b),
    ensures
        os.contains(b),
        lookup(lv, a)->0 > lookup(lv, b)->0,
{
    reveal(finished_ok);
    let ia = choose|ia: int| 0 <= ia < os.len() && os[ia] == a;
    assert(level_ok(g, lv, os[ia]));
    assert(deps_of(g, os[ia]).contains(b));
    let j = choose|j: int| 0 <= j < ia && os[j] == b;
}

proof fn lemma_path_levels(
    g: Seq<(String, Vec<String>)>,
    t: Seq<char>,
    os: Seq<Seq<char>>,
    lv: Seq<(String, usize)>,
    p: Seq<Seq<char>>,
)
    requires
        finished_ok(g, t, os, lv),
        is_path(g, p),
        p.len() >= 1,
        os.contains(p[0]),
    ensures
        forall|i: int| 0 <= i < p.len() ==> os.contains(#[trigger] p[i]),
        forall|i: int, j: int| 0 <= i < j < p.len() ==> lookup(lv, #[trigger] p[i])->0 > lookup(lv, #[trigger] p[j])->0,
    decreases p.len(),
{
    if p.len() > 1 {
        let q = p.drop_last();
        assert(is_path(g, q)) by {
            assert forall|i: int| 0 <= i < q.len() - 1 implies edge(g, #[trigger] q[i], q[i + 1]) by {
                assert(q[i] == p[i] && q[i + 1] == p[i + 1]);
                assert(edge(g, p[i], p[i + 1]));
            }
        }
        assert(q[0] == p[0]);
        lemma_path_levels(g, t, os, lv, q);
        let n = p.len() - 1;
        assert(q[n - 1] == p[n - 1]);
        assert(os.contains(p[n - 1]));
        assert(edge(g, p[n - 1], p[n]));
        lemma_edge_finished(g, t, os, lv, p[n - 1], p[n]);
        assert forall|i: int| 0 <= i < p.len() implies os.contains(#[trigger] p[i]) by {
            if i < n {
                assert(q[i] == p[i]);
            }
        }
        assert forall|i: int, j: int| 0 <= i < j < p.len() implies lookup(lv, #[trigger] p[i])->0 > lookup(lv, #[trigger] p[j])->0 by {
            assert(q[i] == p[i]);
            if j < n {
                assert(q[j] == p[j]);
            } else if i < n - 1 {
                assert(lookup(lv, q[i])->0 > lookup(lv, q[n - 1])->0);
            }
        }
    }
}

proof fn lemma_complete(g: Seq<(String, Vec<String>)>, t: Seq<char>, os: Seq<Seq<char>>, lv: Seq<(String, usize)>)
    requires
        finished_ok(g, t, os, lv),
        os.contains(t),
    ensures
        forall|x: Seq<char>| #[trigger] os.contains(x) <==> reachable(g, t, x),
        !cycle_from(g, t),
        forall|x: Seq<char>| #[trigger] os.contains(x) ==> lookup(lv, x)->0 <= lookup(lv, t)->0,
        forall|x: Seq<char>| #[trigger] os.contains(x) && x != t ==> lookup(lv, x)->0 < lookup(lv, t)->0,
{
    assert forall|x: Seq<char>| #[trigger] os.contains(x) <==> reachable(g, t, x) by {
        if reachable(g, t, x) {
            let p = choose|p: Seq<Seq<char>>| #[trigger] is_path(g, p) && p.len() >= 1 && p[0] == t && p.last() == x;
            lemma_path_levels(g, t, os, lv, p);
            assert(os.contains(p[p.len() - 1]));
        }
        if os.contains(x) {
            reveal(finished_ok);
            let j = choose|j: int| 0 <= j < os.len() && os[j] == x;
            assert(reachable(g, t, os[j]));
        }
    }
    if cycle_from(g, t) {
        let (p, k) = choose|p: Seq<Seq<char>>, k: int|
            #![trigger is_path(g, p), p[k]]
            is_path(g, p) && p.len() >= 2 && p[0] == t && 0 <= k < p.len() - 1 && p[k] == p.last();
        lemma_path_levels(g, t, os, lv, p);
        assert(lookup(lv, p[k])->0 > lookup(lv, p[p.len() - 1])->0);
    }
    assert forall|x: Seq<char>| #[trigger] os.contains(x) implies lookup(lv, x)->0 <= lookup(lv, t)->0 && (x != t ==> lookup(lv, x)->0 < lookup(lv, t)->0) by {
        assert(reachable(g, t, x));
        let p = choose|p: Seq<Seq<char>>| #[trigger] is_path(g, p) && p.len() >= 1 && p[0] == t && p.last() == x;
        lemma_path_levels(g, t, os, lv, p);
        if p.len() > 1 {
            assert(lookup(lv, p[0])->0 > lookup(lv, p[p.len() - 1])->0);
        }
    }
}

/// The tasks to run for `target`, each after its dependencies, ending with the target;
/// an error names a task on a dependency cycle.
pub fn resolve_dependencies(target: &str, deps: &Table<Vec<String>>) -> (r: Result<Vec<String>, String>)
    ensures
        r matches Ok(order) ==> dfs_order(deps.entries@, target@) == Ok::<Seq<Seq<char>>, Seq<char>>(string_views(order@)),
        r matches Err(e) ==> dfs_order(deps.entries@, target@) matches Err(x) && e@ == cycle_error(x),
        match r {
            Ok(order) => {
                &&& dependencies_first(deps.entries@, string_views(order@))
                &&& order@.len() > 0 && string_views(order@).last() == target@
                &&& forall|x: Seq<char>| #[trigger] string_views(order@).contains(x) <==> reachable(deps.entries@, target@, x)
                &&& !cycle_from(deps.entries@, target@)
            },
            Err(e) => cycle_from(deps.entries@, target@) && exists|x: Seq<char>| #[trigger] cycle_through(deps.entries@, target@, x) && e@ == cycle_error(x),
        },
{
    let (r, _) = run_dfs(target, deps);
    r
}

fn run_dfs(target: &str, deps: &Table<Vec<String>>) -> (r: (Result<Vec<String>, String>, Table<usize>))
    ensures
        r.0 matches Ok(order) ==> dfs_order(deps.entries@, target@) == Ok::<Seq<Seq<char>>, Seq<char>>(string_views(order@)),
        r.0 matches Err(e) ==> dfs_order(deps.entries@, target@) matches Err(x) && e@ == cycle_error(x),
        match r.0 {
            Ok(order) => {
                &&& finished_ok(deps.entries@, target@, string_views(order@), r.1.entries@)
                &&& dependencies_first(deps.entries@, string_views(order@))
                &&& order@.len() > 0 && string_views(order@).last() == target@
                &&& forall|x: Seq<char>| #[trigger] string_views(order@).contains(x) <==> reachable(deps.entries@, target@, x)
                &&& !cycle_from(deps.entries@, target@)
            },
            Err(e) => cycle_from(deps.entries@, target@) && exists|x: Seq<char>| #[trigger] cycle_through(deps.entries@, target@, x) && e@ == cycle_error(x),
        },
{
    let ghost g = deps.entries@;
    let mut visiting: Vec<String> = Vec::new();
    let mut levels: Table<usize> = Table::new();
    let mut order: Vec<String> = Vec::new();
    assert(string_views(visiting@) =~= Seq::<Seq<char>>::empty());
    assert(string_views(order@) =~= Seq::<Seq<char>>::empty());
    proof {
        reveal(stack_ok);
        reveal(finished_ok);
        assert(forall|x: Seq<char>| #[trigger] lookup(levels.entries@, x) is None);
    }
    let res = dfs(deps, target, &mut visiting, &mut levels, &mut order, Ghost(target@));
    match res {
        Ok(()) => {
            proof {
                lemma_complete(g, target@, string_views(order@), levels.entries@);
                reveal(finished_ok);
            }
            (Ok(order), levels)
        },
        Err(e) => (Err(e), levels),
    }
}

/// The stages are strictly sorted, together hold exactly the tasks reached from `t`,
/// each in one stage: a task without dependencies in the first stage, any other one
/// stage after the latest of its dependencies; the last stage is the target alone.
pub open spec fn stages_ok(g: Seq<(String, Vec<String>)>, t: Seq<char>, ss: Seq<Seq<Seq<char>>>) -> bool {
    &&& ss.len() >= 1 && ss.last() == seq![t]
    &&& forall|k: int| 0 <= k < ss.len() ==> strictly_sorted(#[trigger] ss[k])
    &&& forall|x: Seq<char>| reachable(g, t, x) <==> exists|k: int| 0 <= k < ss.len() && #[trigger] ss[k].contains(x)
    &&& forall|k1: int, k2: int, x: Seq<char>|
        0 <= k1 < ss.len() && 0 <= k2 < ss.len() && #[trigger] ss[k1].contains(x) && #[trigger] ss[k2].contains(x) ==> k1 == k2
    &&& forall|k: int, x: Seq<char>| 0 <= k < ss.len() && #[trigger] ss[k].contains(x) ==> {
        &&& (deps_of(g, x).len() == 0 <==> k == 0)
        &&& forall|d: Seq<char>| #[trigger] deps_of(g, x).contains(d) ==> exists|j: int| 0 <= j < k && ss[j].contains(d)
        &&& k > 0 ==> exists|d: Seq<char>| #[trigger] deps_of(g, x).contains(d) && ss[k - 1].contains(d)
    }
}

proof fn lemma_stage_nonempty(g: Seq<(String, Vec<String>)>, t: Seq<char>, ss: Seq<Seq<Seq<char>>>, k: int)
    requires
        stages_ok(g, t, ss),
        0 <= k < ss.len(),
    ensures
        ss[k].len() > 0,
    decreases ss.len() - k,
{
    if k < ss.len() - 1 {
        lemma_stage_nonempty(g, t, ss, k + 1);
        let x = ss[k + 1][0];
        assert(ss[k + 1].contains(x));
        let d = choose|d: Seq<char>| #[trigger] deps_of(g, x).contains(d) && ss[k].contains(d);
    }
}

proof fn lemma_chain_down(g: Seq<(String, Vec<String>)>, t: Seq<char>, ss: Seq<Seq<Seq<char>>>, k: int, x: Seq<char>)
    requires
        stages_ok(g, t, ss),
        0 <= k < ss.len(),
        ss[k].contains(x),
    ensures
        exists|p: Seq<Seq<char>>| #[trigger] is_path(g, p) && p.len() == k + 1 && p[0] == x,
    decreases k,
{
    if k == 0 {
        let p = seq![x];
        assert(is_path(g, p));
    } else {
        let d = choose|d: Seq<char>| #[trigger] deps_of(g, x).contains(d) && ss[k - 1].contains(d);
        lemma_chain_down(g, t, ss, k - 1, d);
        let q = choose|q: Seq<Seq<char>>| #[trigger] is_path(g, q) && q.len() == k && q[0] == d;
        let p = seq![x] + q;
        assert forall|m: int| 0 <= m < p.len() - 1 implies edge(g, #[trigger] p[m], p[m + 1]) by {
            if m == 0 {
                assert(p[1] == q[0]);
            } else {
                assert(p[m] == q[m - 1] && p[m + 1] == q[m]);
                assert(edge(g, q[m - 1], q[m]));
            }
        }
        assert(is_path(g, p));
    }
}

proof fn lemma_path_stage(g: Seq<(String, Vec<String>)>, t: Seq<char>, ss: Seq<Seq<Seq<char>>>, p: Seq<Seq<char>>, i: int)
    requires
        stages_ok(g, t, ss),
        is_path(g, p),
        p.len() >= 1,
        p[0] == t,
        0 <= i < p.len(),
    ensures
        exists|k: int| 0 <= k < ss.len() && #[trigger] ss[k].contains(p[i]) && k + i <= ss.len() - 1,
    decreases i,
{
    if i == 0 {
        let k = ss.len() - 1;
        assert(ss[k] == seq![t]);
        assert(ss[k][0] == p[0]);
        assert(ss[k].contains(p[0]));
    } else {
        lemma_path_stage(g, t, ss, p, i - 1);
        let k = choose|k: int| 0 <= k < ss.len() && #[trigger] ss[k].contains(p[i - 1]) && k + (i - 1) <= ss.len() - 1;
        assert(edge(g, p[i - 1], p[i]));
        assert(deps_of(g, p[i - 1]).contains(p[i]));
        let j = choose|j: int| 0 <= j < k && ss[j].contains(p[i]);
        assert(ss[j].contains(p[i]) && j + i <= ss.len() - 1);
    }
}

/// Stages that meet `stages_ok` are as few as they can be: none is empty, a chain of
/// dependencies from the target passes through as many tasks as there are stages, and
/// no chain from the target is longer.
pub proof fn lemma_stages_minimal(g: Seq<(String, Vec<String>)>, t: Seq<char>, ss: Seq<Seq<Seq<char>>>)
    requires
        stages_ok(g, t, ss),
    ensures
        forall|k: int| 0 <= k < ss.len() ==> #[trigger] ss[k].len() > 0,
        exists|p: Seq<Seq<char>>| #[trigger] is_path(g, p) && p.len() == ss.len() && p[0] == t,
        forall|p: Seq<Seq<char>>| #[trigger] is_path(g, p) && p.len() >= 1 && p[0] == t ==> p.len() <= ss.len(),
{
    assert forall|k: int| 0 <= k < ss.len() implies #[trigger] ss[k].len() > 0 by {
        lemma_stage_nonempty(g, t, ss, k);
    }
    let last = ss.len() - 1;
    assert(ss[last] == seq![t]);
    assert(ss[last][0] == t);
    assert(ss[last].contains(t));
    lemma_chain_down(g, t, ss, last, t);
    assert forall|p: Seq<Seq<char>>| #[trigger] is_path(g, p) && p.len() >= 1 && p[0] == t implies p.len() <= ss.len() by {
        lemma_path_stage(g, t, ss, p, p.len() - 1);
    }
}

/// The views of stages.
pub open spec fn stage_views(v: Seq<Vec<String>>) -> Seq<Seq<Seq<char>>> {
    v.map_values(|s: Vec<String>| string_views(s@))
}

/// The finished tasks at level `k`.
pub open spec fn level_set(os: Seq<Seq<char>>, lv: Seq<(String, usize)>, k: int) -> Set<Seq<char>> {
    Set::new(|x: Seq<char>| os.contains(x) && lookup(lv, x) is Some && lookup(lv, x)->0 == k)
}

proof fn lemma_level_ok(g: Seq<(String, Vec<String>)>, t: Seq<char>, os: Seq<Seq<char>>, lv: Seq<(String, usize)>, x: Seq<char>)
    requires
        finished_ok(g, t, os, lv),
        os.contains(x),
    ensures
        level_ok(g, lv, x),
{
    reveal(finished_ok);
    let j = choose|j: int| 0 <= j < os.len() && os[j] == x;
    assert(level_ok(g, lv, os[j]));
}

proof fn lemma_sorted_singleton(s: Seq<Seq<char>>, t: Seq<char>)
    requires
        strictly_sorted(s),
        s.to_set() == set![t],
    ensures
        s == seq![t],
{
    assert(s.no_duplicates()) by {
        assert forall|i: int, j: int| 0 <= i < j < s.len() implies s[i] != s[j] by {
            crate::order::lemma_lex_irreflexive(s[i]);
        }
    }
    s.unique_seq_to_set();
    assert(set![t].len() == 1);
    assert(s.len() == 1);
    assert(s.to_set().contains(s[0]));
    assert(s =~= seq![t]);
}

proof fn lemma_stages_ok(
    g: Seq<(String, Vec<String>)>,
    t: Seq<char>,
    os: Seq<Seq<char>>,
    lv: Seq<(String, usize)>,
    ss: Seq<Seq<Seq<char>>>,
)
    requires
        finished_ok(g, t, os, lv),
        os.contains(t),
        lookup(lv, t) is Some,
        ss.len() == lookup(lv, t)->0 + 1,
        forall|k: int| 0 <= k < ss.len() ==> strictly_sorted(#[trigger] ss[k]),
        forall|k: int| 0 <= k < ss.len() ==> (#[trigger] ss[k]).to_set() == level_set(os, lv, k),
    ensures
        stages_ok(g, t, ss),
{
    let top = lookup(lv, t)->0;
    lemma_complete(g, t, os, lv);
    assert forall|k: int, x: Seq<char>| 0 <= k < ss.len() implies (#[trigger] ss[k].contains(x) <==> (os.contains(x) && lookup(lv, x)
        == Some(k as usize))) by {
        assert(ss[k].contains(x) <==> ss[k].to_set().contains(x));
        lemma_finished_lookup(g, t, os, lv, x);
    }
    assert(ss.last().to_set() =~= set![t]) by {
        assert forall|x: Seq<char>| ss.last().to_set().contains(x) <==> x == t by {
            assert(ss[ss.len() - 1].contains(x) <==> ss[ss.len() - 1].to_set().contains(x));
            if x != t && os.contains(x) {
                lemma_finished_lookup(g, t, os, lv, x);
            }
            lemma_finished_lookup(g, t, os, lv, t);
        }
    }
    lemma_sorted_singleton(ss.last(), t);
    assert forall|x: Seq<char>| reachable(g, t, x) <==> exists|k: int| 0 <= k < ss.len() && #[trigger] ss[k].contains(x) by {
        if reachable(g, t, x) {
            assert(os.contains(x));
            lemma_finished_lookup(g, t, os, lv, x);
            let l = lookup(lv, x)->0;
            assert(l <= top);
            assert(ss[l as int].contains(x));
        }
        if exists|k: int| 0 <= k < ss.len() && #[trigger] ss[k].contains(x) {
            let k = choose|k: int| 0 <= k < ss.len() && #[trigger] ss[k].contains(x);
            assert(os.contains(x));
        }
    }
    assert forall|k: int, x: Seq<char>| 0 <= k < ss.len() && #[trigger] ss[k].contains(x) implies {
        &&& (deps_of(g, x).len() == 0 <==> k == 0)
        &&& forall|d: Seq<char>| #[trigger] deps_of(g, x).contains(d) ==> exists|j: int| 0 <= j < k && ss[j].contains(d)
        &&& k > 0 ==> exists|d: Seq<char>| #[trigger] deps_of(g, x).contains(d) && ss[k - 1].contains(d)
    } by {
        assert(os.contains(x) && lookup(lv, x) == Some(k as usize));
        lemma_level_ok(g, t, os, lv, x);
        assert forall|d: Seq<char>| #[trigger] deps_of(g, x).contains(d) implies exists|j: int| 0 <= j < k && ss[j].contains(d) by {
            lemma_edge_finished(g, t, os, lv, x, d);
            lemma_finished_lookup(g, t, os, lv, d);
            let j = lookup(lv, d)->0;
            assert(ss[j as int].contains(d));
        }
        if k > 0 {
            if deps_of(g, x).len() > 0 {
                let d = choose|d: Seq<char>| #[trigger] deps_of(g, x).contains(d) && lookup(lv, d) == Some((k - 1) as usize);
                lemma_edge_finished(g, t, os, lv, x, d);
                assert(ss[k - 1].contains(d));
            }
        }
        if deps_of(g, x).len() > 0 {
            let d = choose|d: Seq<char>| #[trigger] deps_of(g, x).contains(d) && lookup(lv, d) == Some((k - 1) as usize);
        }
    }
}

/// Groups the tasks for `target` into stages that can each run in parallel (see
/// `stages_ok`); an error names a task on a dependency cycle.
pub fn resolve_dependency_stages(target: &str, deps: &Table<Vec<String>>) -> (r: Result<Vec<Vec<String>>, String>)
    ensures
        r matches Err(e) ==> dfs_order(deps.entries@, target@) matches Err(x) && e@ == cycle_error(x),
        match r {
            Ok(stages) => stages_ok(deps.entries@, target@, stage_views(stages@)) && !cycle_from(deps.entries@, target@),
            Err(e) => cycle_from(deps.entries@, target@) && exists|x: Seq<char>| #[trigger] cycle_through(deps.entries@, target@, x) && e@ == cycle_error(x),
        },
{
    let ghost g = deps.entries@;
    let (res, levels) = run_dfs(target, deps);
    let order = match res {
        Ok(o) => o,
        Err(e) => {
            return Err(e);
        },
    };
    let ghost os = string_views(order@);
    let ghost lv = levels.entries@;
    let tc = to_chars(target);
    proof {
        assert(os[os.len() - 1] == target@);
        lemma_finished_lookup(g, target@, os, lv, target@);
    }
    let top: usize = match levels.get(tc.as_slice()) {
        Some(l) => *l,
        None => 0,
    };
    let mut stages: Vec<Vec<String>> = Vec::new();
    let mut k: usize = 0;
    while k <= top
        invariant
            os == string_views(order@),
            lv == levels.entries@,
            lookup(lv, target@) == Some(top),
            top < order@.len(),
            k <= top + 1,
            stages@.len() == k,
            forall|m: int| 0 <= m < k ==> strictly_sorted(#[trigger] stage_views(stages@)[m]),
            forall|m: int| 0 <= m < k ==> (#[trigger] stage_views(stages@)[m]).to_set() == level_set(os, lv, m),
        decreases top + 1 - k,
    {
        let mut stage: Vec<String> = Vec::new();
        let mut j: usize = 0;
        assert(string_views(stage@).to_set() =~= Set::<Seq<char>>::empty());
        while j < order.len()
            invariant
                os == string_views(order@),
                lv == levels.entries@,
                j <= order@.len(),
                strictly_sorted(string_views(stage@)),
                string_views(stage@).to_set() == Set::new(|x: Seq<char>| os.take(j as int).contains(x) && lookup(lv, x) is Some && lookup(lv, x)->0 == k),
            decreases order@.len() - j,
        {
            let nc = to_chars(order[j].as_str());
            let l = match levels.get(nc.as_slice()) {
                Some(x) => *x,
                None => usize::MAX,
            };
            let ghost before = string_views(stage@).to_set();
            let ghost xj = os[j as int];
            assert(nc@ == xj);
            let ghost ins = lookup(lv, xj) is Some && lookup(lv, xj)->0 == k;
            if levels.get(nc.as_slice()).is_some() && l == k {
                insert_sorted(&mut stage, order[j].clone());
            }
            assert(ins ==> string_views(stage@).to_set() == before.insert(xj));
            assert(!ins ==> string_views(stage@).to_set() == before);
            proof {
                assert forall|x: Seq<char>| before.contains(x) <==> (os.take(j as int).contains(x) && lookup(lv, x) is Some && lookup(lv, x)->0 == k) by {}
                assert(os.take(j + 1) =~= os.take(j as int).push(os[j as int]));
                assert forall|x: Seq<char>| string_views(stage@).to_set().contains(x) <==> (os.take(j + 1).contains(x) && lookup(lv, x) is Some && lookup(lv, x)->0 == k) by {
                    let t1 = os.take(j + 1);
                    let t0 = os.take(j as int);
                    assert(t1 == t0.push(xj));
                    assert(t1.contains(x) <==> (t0.contains(x) || x == xj)) by {
                        if t1.contains(x) {
                            let m = choose|m: int| 0 <= m < t1.len() && t1[m] == x;
                            if m < j {
                                assert(t0[m] == x);
                            }
                        }
                        if t0.contains(x) {
                            let m = choose|m: int| 0 <= m < t0.len() && t0[m] == x;
                            assert(t1[m] == x);
                        }
                        if x == xj {
                            assert(t1[j as int] == x);
                        }
                    }
                    assert(before.contains(x) <==> (t0.contains(x) && lookup(lv, x) is Some && lookup(lv, x)->0 == k));
                    if ins {
                        assert(string_views(stage@).to_set().contains(x) <==> (before.contains(x) || x == xj));
                    } else {
                        assert(string_views(stage@).to_set().contains(x) <==> before.contains(x));
                    }
                }
                assert(string_views(stage@).to_set() =~= Set::new(|x: Seq<char>| os.take(j + 1).contains(x) && lookup(lv, x) is Some && lookup(lv, x)->0 == k));
            }
            j = j + 1;
        }
        proof {
            assert(os.take(j as int) =~= os);
            assert(string_views(stage@).to_set() =~= level_set(os, lv, k as int));
        }
        let ghost before = stage_views(stages@);
        stages.push(stage);
        proof {
            assert(stage_views(stages@) =~= before.push(string_views(stage@)));
        }
        k = k + 1;
    }
    proof {
        lemma_complete(g, target@, os, lv);
        assert(stage_views(stages@).len() == top + 1);
        lemma_stages_ok(g, target@, os, lv, stage_views(stages@));
    }
    Ok(stages)
}

} // verus!
