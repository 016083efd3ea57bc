//! The dependency resolver: finds which solution projects satisfy a
//! project's declared dependencies, detects dependency cycles, and puts a
//! project's transitive local dependencies into build order.
//!
//! Projects are addressed by their index in the solution; the walks are
//! over the dependency-name graph, where a declared dependency points at
//! every project whose name equals it and whose version satisfies its
//! constraint.

use vstd::prelude::*;
use vstd::set_lib::lemma_len_subset;
use crate::solution::{Dependency, Project, Solution};
use crate::version_tools::{evaluate, version_check};

verus! {

broadcast use vstd::seq_lib::seq_to_set_is_finite;

/// The names of the solution's projects, in declaration order.
pub open spec fn project_names(sol: Seq<Project>) -> Seq<Seq<char>> {
    sol.map_values(|p: Project| p.name@)
}

/// Whether project `j` satisfies the declared dependency `dep`: its name
/// equals the dependency's and its version satisfies the constraint.
pub open spec fn dep_resolves(sol: Seq<Project>, dep: Dependency, j: int) -> bool {
    &&& 0 <= j < sol.len()
    &&& sol[j].name@ == dep.name@
    &&& evaluate(dep.version@, sol[j].version@)
}

/// Whether project `j` satisfies dependency `dep` declared by project
/// `self_idx`; the declaring project itself is skipped.
pub open spec fn dep_matches(sol: Seq<Project>, self_idx: int, dep: Dependency, j: int) -> bool {
    j != self_idx && dep_resolves(sol, dep, j)
}

/// The projects among the first `n` that match `dep`, in scan order.
pub open spec fn matches_among(sol: Seq<Project>, self_idx: int, dep: Dependency, n: int) -> Seq<
    int,
>
    decreases n,
{
    if n <= 0 {
        Seq::<int>::empty()
    } else {
        let rest = matches_among(sol, self_idx, dep, n - 1);
        if dep_matches(sol, self_idx, dep, n - 1) {
            rest.push(n - 1)
        } else {
            rest
        }
    }
}

/// The local dependencies found for the first `k` declared dependencies
/// of project `self_idx`, in declaration order.
pub open spec fn local_deps_upto(sol: Seq<Project>, self_idx: int, k: int) -> Seq<int>
    decreases k,
{
    if k <= 0 {
        Seq::<int>::empty()
    } else {
        local_deps_upto(sol, self_idx, k - 1) + matches_among(
            sol,
            self_idx,
            sol[self_idx].dependencies@[k - 1],
            sol.len() as int,
        )
    }
}

/// Every project matching some declared dependency of project `self_idx`,
/// dependency by dependency, in scan order. Several matches of one
/// dependency are all kept.
pub open spec fn local_dependencies(sol: Seq<Project>, self_idx: int) -> Seq<int> {
    local_deps_upto(sol, self_idx, sol[self_idx].dependencies@.len() as int)
}

/// Finds the projects of the solution that satisfy the declared
/// dependencies of the project at `project_index`, as indices into
/// `solution.projects`, in scan order.
pub fn find_local_dependencies(project_index: usize, solution: &Solution) -> (r: Vec<usize>)
    requires
        project_index < solution.projects@.len(),
    ensures
        r@.map_values(|u: usize| u as int) == local_dependencies(
            solution.projects@,
            project_index as int,
        ),
        forall|k: int| 0 <= k < r@.len() ==> r@[k] < solution.projects@.len(),
{
    let ghost sol = solution.projects@;
    let ghost idx = project_index as int;
    let mut r: Vec<usize> = Vec::new();
    let n = solution.projects.len();
    let deps_len = solution.projects[project_index].dependencies.len();
    let mut k: usize = 0;
    while k < deps_len
        invariant
            k <= deps_len,
            project_index < sol.len(),
            sol == solution.projects@,
            idx == project_index as int,
            n == sol.len(),
            deps_len == sol[idx].dependencies@.len(),
            r@.map_values(|u: usize| u as int) == local_deps_upto(sol, idx, k as int),
            forall|t: int| 0 <= t < r@.len() ==> r@[t] < n,
        decreases deps_len - k,
    {
        let ghost dep = sol[idx].dependencies@[k as int];
        let mut j: usize = 0;
        while j < n
            invariant
                j <= n,
                k < deps_len,
                project_index < sol.len(),
                sol == solution.projects@,
                idx == project_index as int,
                n == sol.len(),
                deps_len == sol[idx].dependencies@.len(),
                dep == sol[idx].dependencies@[k as int],
                r@.map_values(|u: usize| u as int) == local_deps_upto(sol, idx, k as int)
                    + matches_among(sol, idx, dep, j as int),
                forall|t: int| 0 <= t < r@.len() ==> r@[t] < n,
            decreases n - j,
        {
            if j != project_index {
                let p = &solution.projects[j];
                let d = &solution.projects[project_index].dependencies[k];
                let name_eq = p.name == d.name;
                let ver_ok = version_check(d.version.as_str(), p.version.as_str());
                if name_eq && ver_ok {
                    proof {
                        assert(dep_matches(sol, idx, dep, j as int));
                    }
                    let ghost prevr = r@;
                    r.push(j);
                    proof {
                        assert(r@ == prevr.push(j));
                        assert(r@.map_values(|u: usize| u as int) =~= prevr.map_values(
                            |u: usize| u as int,
                        ).push(j as int));
                        assert(matches_among(sol, idx, dep, j + 1) == matches_among(
                            sol,
                            idx,
                            dep,
                            j as int,
                        ).push(j as int));
                    }
                } else {
                    proof {
                        assert(!dep_matches(sol, idx, dep, j as int));
                    }
                }
            } else {
                proof {
                    assert(!dep_matches(sol, idx, dep, j as int));
                }
            }
            proof {
                assert(r@.map_values(|u: usize| u as int) =~= local_deps_upto(sol, idx, k as int)
                    + matches_among(sol, idx, dep, j + 1));
            }
            j = j + 1;
        }
        k = k + 1;
        proof {
            assert(matches_among(sol, idx, dep, n as int) == matches_among(
                sol,
                idx,
                sol[idx].dependencies@[k - 1],
                sol.len() as int,
            ));
        }
    }
    r
}

/// Depth-first cycle search from project `idx`, with `visited` the names
/// on the active path. Running out of `fuel` conservatively reports a
/// cycle; with the fuel the callers use, that never happens.
pub open spec fn cycle_from(
    sol: Seq<Project>,
    idx: int,
    visited: Seq<Seq<char>>,
    fuel: nat,
) -> bool
    decreases fuel, 2int, 0int,
{
    cycle_deps(sol, idx, 0, visited, fuel)
}

/// Cycle search over the declared dependencies of `idx`, from the
/// dependency at position `di` on.
pub open spec fn cycle_deps(
    sol: Seq<Project>,
    idx: int,
    di: int,
    visited: Seq<Seq<char>>,
    fuel: nat,
) -> bool
    decreases fuel, 1int, (if 0 <= idx < sol.len() && di < sol[idx].dependencies@.len() {
        sol[idx].dependencies@.len() - di
    } else {
        0
    }),
{
    if !(0 <= idx < sol.len()) {
        false
    } else if di >= sol[idx].dependencies@.len() || di < 0 {
        false
    } else {
        cycle_cands(sol, idx, di, 0, visited, fuel) || cycle_deps(sol, idx, di + 1, visited, fuel)
    }
}

/// Cycle search over the candidate projects for the dependency at `di` of
/// `idx`, from candidate `j` on: a candidate whose name is already on the
/// active path closes a cycle; a new one is searched with its name pushed.
pub open spec fn cycle_cands(
    sol: Seq<Project>,
    idx: int,
    di: int,
    j: int,
    visited: Seq<Seq<char>>,
    fuel: nat,
) -> bool
    decreases fuel, 0int, (if j < sol.len() {
        sol.len() - j
    } else {
        0
    }),
{
    if !(0 <= j < sol.len()) || !(0 <= idx < sol.len()) || !(0 <= di
        < sol[idx].dependencies@.len()) {
        false
    } else {
        let here = if dep_resolves(sol, sol[idx].dependencies@[di], j) {
            if visited.contains(sol[j].name@) {
                true
            } else if fuel == 0 {
                true
            } else {
                cycle_from(sol, j, visited.push(sol[j].name@), (fuel - 1) as nat)
            }
        } else {
            false
        };
        here || cycle_cands(sol, idx, di, j + 1, visited, fuel)
    }
}

/// Whether a dependency walk from project `idx` meets a name already on
/// the path `visited`, with fuel enough for every walk the callers make.
pub open spec fn has_cycle(sol: Seq<Project>, idx: int, visited: Seq<Seq<char>>) -> bool {
    cycle_from(sol, idx, visited, (sol.len() + 1 - visited.len()) as nat)
}

/// A duplicate-free sequence of project names is no longer than the
/// solution itself.
proof fn lemma_visited_below(sol: Seq<Project>, visited: Seq<Seq<char>>)
    requires
        visited.no_duplicates(),
        forall|v: Seq<char>| visited.contains(v) ==> project_names(sol).contains(v),
    ensures
        visited.len() <= sol.len(),
{
    visited.unique_seq_to_set();
    assert(visited.to_set().subset_of(project_names(sol).to_set()));
    lemma_len_subset(visited.to_set(), project_names(sol).to_set());
    project_names(sol).lemma_cardinality_of_set();
}

/// Post-order emission of the transitive local dependencies of `idx`:
/// what `emitted` becomes after walking every dependency of `idx`, with
/// `visiting` the names on the active path. A project is walked only when
/// its name is not on the path (the defence against an undetected cycle)
/// and emitted only once, after everything it depends on.
pub open spec fn order_from(
    sol: Seq<Project>,
    idx: int,
    visiting: Seq<Seq<char>>,
    emitted: Seq<int>,
    fuel: nat,
) -> Seq<int>
    decreases fuel, 2int, 0int,
{
    order_deps(sol, idx, 0, visiting, emitted, fuel)
}

/// Emission over the declared dependencies of `idx` from position `di` on.
pub open spec fn order_deps(
    sol: Seq<Project>,
    idx: int,
    di: int,
    visiting: Seq<Seq<char>>,
    emitted: Seq<int>,
    fuel: nat,
) -> Seq<int>
    decreases fuel, 1int, (if 0 <= idx < sol.len() && di < sol[idx].dependencies@.len() {
        sol[idx].dependencies@.len() - di
    } else {
        0
    }),
{
    if !(0 <= idx < sol.len()) {
        emitted
    } else if di >= sol[idx].dependencies@.len() || di < 0 {
        emitted
    } else {
        let e2 = order_cands(sol, idx, di, 0, visiting, emitted, fuel);
        order_deps(sol, idx, di + 1, visiting, e2, fuel)
    }
}

/// Emission over the candidate projects for the dependency at `di` of
/// `idx`, from candidate `j` on: a fresh match is walked depth-first and
/// then emitted; one already on the path or already emitted is skipped.
pub open spec fn order_cands(
    sol: Seq<Project>,
    idx: int,
    di: int,
    j: int,
    visiting: Seq<Seq<char>>,
    emitted: Seq<int>,
    fuel: nat,
) -> Seq<int>
    decreases fuel, 0int, (if j < sol.len() {
        sol.len() - j
    } else {
        0
    }),
{
    if !(0 <= j < sol.len()) || !(0 <= idx < sol.len()) || !(0 <= di
        < sol[idx].dependencies@.len()) {
        emitted
    } else {
        let e2 = if dep_matches(sol, idx, sol[idx].dependencies@[di], j) && !visiting.contains(
            sol[j].name@,
        ) && !emitted.contains(j) && fuel > 0 {
            order_from(sol, j, visiting.push(sol[j].name@), emitted, (fuel - 1) as nat).push(j)
        } else {
            emitted
        };
        order_cands(sol, idx, di, j + 1, visiting, e2, fuel)
    }
}

/// The transitive local dependencies of project `idx`, each exactly once,
/// dependencies before dependents, the project itself excluded.
pub open spec fn resolve_order(sol: Seq<Project>, idx: int) -> Seq<int> {
    order_from(sol, idx, seq![sol[idx].name@], Seq::<int>::empty(), sol.len() as nat)
}

/// What emission preserves: the result extends `emitted`; every new
/// element is a project index whose name is not on the active path; and
/// no element is emitted twice.
pub proof fn lemma_order_from_props(
    sol: Seq<Project>,
    idx: int,
    visiting: Seq<Seq<char>>,
    emitted: Seq<int>,
    fuel: nat,
)
    ensures
        ({
            let r = order_from(sol, idx, visiting, emitted, fuel);
            &&& r.len() >= emitted.len()
            &&& r.take(emitted.len() as int) == emitted
            &&& forall|t: int|
                emitted.len() <= t < r.len() ==> 0 <= #[trigger] r[t] < sol.len()
                    && !visiting.contains(sol[r[t]].name@)
            &&& (emitted.no_duplicates() ==> r.no_duplicates())
        }),
    decreases fuel, 2int, 0int,
{
    lemma_order_deps_props(sol, idx, 0, visiting, emitted, fuel);
}

/// The properties of `lemma_order_from_props`, for `order_deps`.
pub proof fn lemma_order_deps_props(
    sol: Seq<Project>,
    idx: int,
    di: int,
    visiting: Seq<Seq<char>>,
    emitted: Seq<int>,
    fuel: nat,
)
    ensures
        ({
            let r = order_deps(sol, idx, di, visiting, emitted, fuel);
            &&& r.len() >= emitted.len()
            &&& r.take(emitted.len() as int) == emitted
            &&& forall|t: int|
                emitted.len() <= t < r.len() ==> 0 <= #[trigger] r[t] < sol.len()
                    && !visiting.contains(sol[r[t]].name@)
            &&& (emitted.no_duplicates() ==> r.no_duplicates())
        }),
    decreases fuel, 1int, (if 0 <= idx < sol.len() && di < sol[idx].dependencies@.len() {
        sol[idx].dependencies@.len() - di
    } else {
        0
    }),
{
    if !(0 <= idx < sol.len()) {
        assert(order_deps(sol, idx, di, visiting, emitted, fuel).take(emitted.len() as int)
            =~= emitted);
    } else if di >= sol[idx].dependencies@.len() || di < 0 {
        assert(order_deps(sol, idx, di, visiting, emitted, fuel).take(emitted.len() as int)
            =~= emitted);
    } else {
        let e2 = order_cands(sol, idx, di, 0, visiting, emitted, fuel);
        lemma_order_cands_props(sol, idx, di, 0, visiting, emitted, fuel);
        lemma_order_deps_props(sol, idx, di + 1, visiting, e2, fuel);
        let r = order_deps(sol, idx, di + 1, visiting, e2, fuel);
        assert(r.take(emitted.len() as int) =~= emitted) by {
            assert(r.take(e2.len() as int) == e2);
            assert(forall|t: int| 0 <= t < e2.len() ==> r[t] == e2[t]);
            assert(forall|t: int| 0 <= t < emitted.len() ==> e2[t] == emitted[t]);
        }
        assert forall|t: int| emitted.len() <= t < r.len() implies 0 <= #[trigger] r[t] < sol.len()
            && !visiting.contains(sol[r[t]].name@) by {
            if t < e2.len() {
                assert(r[t] == e2[t]);
            }
        }
    }
}

/// The properties of `lemma_order_from_props`, for `order_cands`.
pub proof fn lemma_order_cands_props(
    sol: Seq<Project>,
    idx: int,
    di: int,
    j: int,
    visiting: Seq<Seq<char>>,
    emitted: Seq<int>,
    fuel: nat,
)
    ensures
        ({
            let r = order_cands(sol, idx, di, j, visiting, emitted, fuel);
            &&& r.len() >= emitted.len()
            &&& r.take(emitted.len() as int) == emitted
            &&& forall|t: int|
                emitted.len() <= t < r.len() ==> 0 <= #[trigger] r[t] < sol.len()
                    && !visiting.contains(sol[r[t]].name@)
            &&& (emitted.no_duplicates() ==> r.no_duplicates())
        }),
    decreases fuel, 0int, (if j < sol.len() {
        sol.len() - j
    } else {
        0
    }),
{
    if !(0 <= j < sol.len()) || !(0 <= idx < sol.len()) || !(0 <= di
        < sol[idx].dependencies@.len()) {
        assert(order_cands(sol, idx, di, j, visiting, emitted, fuel).take(emitted.len() as int)
            =~= emitted);
    } else {
        let walk = dep_matches(sol, idx, sol[idx].dependencies@[di], j) && !visiting.contains(
            sol[j].name@,
        ) && !emitted.contains(j) && fuel > 0;
        let e2 = if walk {
            order_from(sol, j, visiting.push(sol[j].name@), emitted, (fuel - 1) as nat).push(j)
        } else {
            emitted
        };
        if walk {
            let vis2 = visiting.push(sol[j].name@);
            let sub = order_from(sol, j, vis2, emitted, (fuel - 1) as nat);
            lemma_order_from_props(sol, j, vis2, emitted, (fuel - 1) as nat);
            assert(e2 == sub.push(j));
            assert(e2.take(emitted.len() as int) =~= emitted) by {
                assert(forall|t: int| 0 <= t < sub.len() ==> e2[t] == sub[t]);
                assert(forall|t: int| 0 <= t < emitted.len() ==> sub[t] == emitted[t]);
            }
            assert forall|t: int| emitted.len() <= t < e2.len() implies 0 <= #[trigger] e2[t]
                < sol.len() && !visiting.contains(sol[e2[t]].name@) by {
                if t < sub.len() {
                    assert(e2[t] == sub[t]);
                    assert(!vis2.contains(sol[sub[t]].name@));
                    if visiting.contains(sol[sub[t]].name@) {
                        let w = choose|w: int|
                            0 <= w < visiting.len() && visiting[w] == sol[sub[t]].name@;
                        assert(vis2[w] == sol[sub[t]].name@);
                    }
                } else {
                    assert(e2[t] == j);
                }
            }
            if emitted.no_duplicates() {
                assert(e2.no_duplicates()) by {
                    assert(sub.no_duplicates());
                    assert(!sub.contains(j)) by {
                        if sub.contains(j) {
                            let w = choose|w: int| 0 <= w < sub.len() && sub[w] == j;
                            if w < emitted.len() {
                                assert(emitted[w] == j);
                                assert(emitted.contains(j));
                            } else {
                                assert(!vis2.contains(sol[sub[w]].name@));
                                assert(vis2[vis2.len() - 1] == sol[j].name@);
                            }
                        }
                    }
                    assert forall|a: int, b: int| 0 <= a < b < e2.len() implies e2[a] != e2[b] by {
                        if b < sub.len() {
                        } else {
                            assert(e2[b] == j);
                            if e2[a] == j {
                                assert(sub[a] == j);
                                assert(sub.contains(j));
                            }
                        }
                    }
                }
            }
        }
        lemma_order_cands_props(sol, idx, di, j + 1, visiting, e2, fuel);
        let r = order_cands(sol, idx, di, j + 1, visiting, e2, fuel);
        assert(order_cands(sol, idx, di, j, visiting, emitted, fuel) == r);
        assert(r.take(emitted.len() as int) =~= emitted) by {
            assert(forall|t: int| 0 <= t < e2.len() ==> r[t] == e2[t]);
            assert(forall|t: int| 0 <= t < emitted.len() ==> e2[t] == emitted[t]);
        }
        assert forall|t: int| emitted.len() <= t < r.len() implies 0 <= #[trigger] r[t] < sol.len()
            && !visiting.contains(sol[r[t]].name@) by {
            if t < e2.len() {
                assert(r[t] == e2[t]);
            }
        }
    }
}

/// Pushing the name of a fresh project keeps the active path duplicate
/// free and within the solution's names.
proof fn lemma_push_visited(sol: Seq<Project>, vis: Seq<Seq<char>>, j: int)
    requires
        vis.no_duplicates(),
        forall|v: Seq<char>| vis.contains(v) ==> project_names(sol).contains(v),
        0 <= j < sol.len(),
        !vis.contains(sol[j].name@),
    ensures
        vis.push(sol[j].name@).no_duplicates(),
        forall|v: Seq<char>|
            vis.push(sol[j].name@).contains(v) ==> project_names(sol).contains(v),
{
    let nv = vis.push(sol[j].name@);
    assert forall|a: int, b: int| 0 <= a < b < nv.len() implies nv[a] != nv[b] by {
        if b == vis.len() as int {
            if nv[a] == nv[b] {
                assert(vis[a] == sol[j].name@);
                assert(vis.contains(sol[j].name@));
            }
        }
    }
    assert forall|v: Seq<char>| nv.contains(v) implies project_names(sol).contains(v) by {
        let w = choose|k: int| 0 <= k < nv.len() && nv[k] == v;
        if w < vis.len() {
            assert(vis[w] == v);
            assert(vis.contains(v));
        } else {
            assert(v == sol[j].name@);
            assert(project_names(sol)[j] == sol[j].name@);
        }
    }
}

/// Whether some element of `v` is the index `x`.
fn contains_index(v: &Vec<usize>, x: usize) -> (r: bool)
    ensures
        r == v@.map_values(|u: usize| u as int).contains(x as int),
{
    let n = v.len();
    let mut i: usize = 0;
    while i < n
        invariant
            i <= n,
            n == v@.len(),
            forall|k: int| 0 <= k < i ==> v@[k] != x,
        decreases n - i,
    {
        if v[i] == x {
            proof {
                assert(v@.map_values(|u: usize| u as int)[i as int] == x as int);
            }
            return true;
        }
        i = i + 1;
    }
    proof {
        let m = v@.map_values(|u: usize| u as int);
        if m.contains(x as int) {
            let w = choose|k: int| 0 <= k < m.len() && m[k] == x as int;
            assert(v@[w] as int == x as int);
            assert(v@[w] != x);
        }
    }
    false
}

/// One depth-first step of the ordering walk: processes every dependency
/// of the project at `project_index`, appending to `emitted`.
fn resolve_order_rec(
    project_index: usize,
    solution: &Solution,
    visiting: &Vec<String>,
    emitted: &mut Vec<usize>,
)
    requires
        project_index < solution.projects@.len(),
        visiting.deep_view().no_duplicates(),
        forall|v: Seq<char>|
            visiting.deep_view().contains(v) ==> project_names(solution.projects@).contains(v),
    ensures
        final(emitted)@.map_values(|u: usize| u as int) == order_from(
            solution.projects@,
            project_index as int,
            visiting.deep_view(),
            old(emitted)@.map_values(|u: usize| u as int),
            (solution.projects@.len() + 1 - visiting.deep_view().len()) as nat,
        ),
    decreases solution.projects@.len() + 1 - visiting@.len(),
{
    let ghost sol = solution.projects@;
    let ghost idx = project_index as int;
    let ghost vis = visiting.deep_view();
    let ghost emitted0 = old(emitted)@.map_values(|u: usize| u as int);
    proof {
        lemma_visited_below(sol, vis);
    }
    let ghost fuel = (sol.len() + 1 - vis.len()) as nat;
    let n = solution.projects.len();
    let deps_len = solution.projects[project_index].dependencies.len();
    let mut di: usize = 0;
    while di < deps_len
        invariant
            di <= deps_len,
            project_index < sol.len(),
            sol == solution.projects@,
            idx == project_index as int,
            vis == visiting.deep_view(),
            vis.no_duplicates(),
            forall|v: Seq<char>| vis.contains(v) ==> project_names(sol).contains(v),
            fuel == (sol.len() + 1 - vis.len()) as nat,
            vis.len() <= sol.len(),
            n == sol.len(),
            deps_len == sol[idx].dependencies@.len(),
            order_from(sol, idx, vis, emitted0, fuel) == order_deps(
                sol,
                idx,
                di as int,
                vis,
                emitted@.map_values(|u: usize| u as int),
                fuel,
            ),
        decreases deps_len - di,
    {
        let ghost dep = sol[idx].dependencies@[di as int];
        let ghost einner = emitted@.map_values(|u: usize| u as int);
        let mut j: usize = 0;
        while j < n
            invariant
                j <= n,
                di < deps_len,
                project_index < sol.len(),
                sol == solution.projects@,
                idx == project_index as int,
                vis == visiting.deep_view(),
                vis.no_duplicates(),
                forall|v: Seq<char>| vis.contains(v) ==> project_names(sol).contains(v),
                fuel == (sol.len() + 1 - vis.len()) as nat,
                vis.len() <= sol.len(),
                n == sol.len(),
                deps_len == sol[idx].dependencies@.len(),
                dep == sol[idx].dependencies@[di as int],
                order_cands(sol, idx, di as int, 0, vis, einner, fuel) == order_cands(
                    sol,
                    idx,
                    di as int,
                    j as int,
                    vis,
                    emitted@.map_values(|u: usize| u as int),
                    fuel,
                ),
            decreases n - j,
        {
            let ghost ecur = emitted@.map_values(|u: usize| u as int);
            let p = &solution.projects[j];
            let d = &solution.projects[project_index].dependencies[di];
            let name_eq = p.name == d.name;
            let ver_ok = version_check(d.version.as_str(), p.version.as_str());
            let is_self = j == project_index;
            if name_eq && ver_ok && !is_self {
                proof {
                    assert(dep_matches(sol, idx, dep, j as int));
                }
                let on_path = contains_name(visiting, &p.name);
                let done = contains_index(emitted, j);
                if !on_path && !done {
                    let mut new_visiting = clone_string_vec(visiting);
                    let name = p.name.clone();
                    let ghost gname = name;
                    let ghost prev = new_visiting;
                    new_visiting.push(name);
                    proof {
                        crate::common::lemma_push_deep_view(prev, new_visiting, gname);
                        assert(new_visiting.deep_view() == vis.push(sol[j as int].name@));
                        lemma_push_visited(sol, vis, j as int);
                        assert(new_visiting@.len() == vis.len() + 1);
                    }
                    resolve_order_rec(j, solution, &new_visiting, emitted);
                    let ghost esub = emitted@.map_values(|u: usize| u as int);
                    let ghost prevem = emitted@;
                    emitted.push(j);
                    proof {
                        assert(emitted@ == prevem.push(j));
                        assert(emitted@.map_values(|u: usize| u as int) =~= esub.push(j as int));
                        assert(order_cands(sol, idx, di as int, j as int, vis, ecur, fuel)
                            == order_cands(
                            sol,
                            idx,
                            di as int,
                            j + 1,
                            vis,
                            emitted@.map_values(|u: usize| u as int),
                            fuel,
                        ));
                    }
                } else {
                    proof {
                        assert(order_cands(sol, idx, di as int, j as int, vis, ecur, fuel)
                            == order_cands(sol, idx, di as int, j + 1, vis, ecur, fuel));
                    }
                }
            } else {
                proof {
                    assert(!dep_matches(sol, idx, dep, j as int));
                    assert(order_cands(sol, idx, di as int, j as int, vis, ecur, fuel)
                        == order_cands(sol, idx, di as int, j + 1, vis, ecur, fuel));
                }
            }
            j = j + 1;
        }
        proof {
            let ecur = emitted@.map_values(|u: usize| u as int);
            assert(order_cands(sol, idx, di as int, n as int, vis, ecur, fuel) == ecur);
            assert(order_deps(sol, idx, di as int, vis, einner, fuel) == order_deps(
                sol,
                idx,
                di + 1,
                vis,
                ecur,
                fuel,
            ));
        }
        di = di + 1;
    }
    proof {
        let ecur = emitted@.map_values(|u: usize| u as int);
        assert(order_deps(sol, idx, deps_len as int, vis, ecur, fuel) == ecur);
    }
}

/// The transitive local dependencies of the project at `project_index`,
/// in dependency-first topological order: each appears exactly once, and a
/// declared dependency that no local project satisfies is silently
/// treated as external.
pub fn resolve_local_dependencies_in_order(project_index: usize, solution: &Solution) -> (r: Vec<
    usize,
>)
    requires
        project_index < solution.projects@.len(),
    ensures
        r@.map_values(|u: usize| u as int) == resolve_order(
            solution.projects@,
            project_index as int,
        ),
        forall|k: int| 0 <= k < r@.len() ==> #[trigger] r@[k] < solution.projects@.len(),
        r@.no_duplicates(),
{
    let ghost sol = solution.projects@;
    let ghost idx = project_index as int;
    let mut visiting: Vec<String> = Vec::new();
    visiting.push(solution.projects[project_index].name.clone());
    proof {
        assert(visiting.deep_view() =~= seq![sol[idx].name@]);
        assert(visiting.deep_view().no_duplicates());
        assert forall|v: Seq<char>| visiting.deep_view().contains(v) implies project_names(
            sol,
        ).contains(v) by {
            assert(v == sol[idx].name@);
            assert(project_names(sol)[idx] == sol[idx].name@);
        }
    }
    let mut emitted: Vec<usize> = Vec::new();
    proof {
        assert(emitted@.map_values(|u: usize| u as int) =~= Seq::<int>::empty());
    }
    resolve_order_rec(project_index, solution, &visiting, &mut emitted);
    proof {
        let m = emitted@.map_values(|u: usize| u as int);
        assert(m == resolve_order(sol, idx));
        lemma_order_from_props(sol, idx, seq![sol[idx].name@], Seq::<int>::empty(), sol.len() as nat);
        assert(Seq::<int>::empty().no_duplicates());
        assert forall|k: int| 0 <= k < emitted@.len() implies #[trigger] emitted@[k]
            < sol.len() by {
            assert(m[k] == emitted@[k] as int);
            assert(0 <= m[k] < sol.len());
        }
        assert forall|a: int, b: int| 0 <= a < b < emitted@.len() implies emitted@[a]
            != emitted@[b] by {
            assert(m[a] != m[b]);
        }
    }
    emitted
}

/// Whether some element of `v` is the string `name`.
pub fn contains_name(v: &Vec<String>, name: &String) -> (r: bool)
    ensures
        r == v.deep_view().contains(name@),
{
    let n = v.len();
    let mut i: usize = 0;
    while i < n
        invariant
            i <= n,
            n == v@.len(),
            forall|k: int| 0 <= k < i ==> v.deep_view()[k] != name@,
        decreases n - i,
    {
        if v[i] == *name {
            proof {
                assert(v.deep_view()[i as int] == name@);
            }
            return true;
        }
        i = i + 1;
    }
    proof {
        if v.deep_view().contains(name@) {
            let w = choose|k: int| 0 <= k < v.deep_view().len() && v.deep_view()[k] == name@;
            assert(v.deep_view()[w] != name@);
        }
    }
    false
}

/// A copy of a vector of strings, element by element.
fn clone_string_vec(v: &Vec<String>) -> (r: Vec<String>)
    ensures
        r.deep_view() == v.deep_view(),
        r@.len() == v@.len(),
{
    let mut r: Vec<String> = Vec::new();
    let n = v.len();
    let mut i: usize = 0;
    while i < n
        invariant
            i <= n,
            n == v@.len(),
            r@.len() == i,
            r.deep_view() =~= v.deep_view().take(i as int),
        decreases n - i,
    {
        let s = v[i].clone();
        let ghost gs = s;
        let ghost prev = r;
        r.push(s);
        proof {
            crate::common::lemma_push_deep_view(prev, r, gs);
            assert(r.deep_view() =~= v.deep_view().take(i + 1));
        }
        i = i + 1;
    }
    proof {
        assert(v.deep_view().take(n as int) =~= v.deep_view());
    }
    r
}

/// Whether a dependency walk from the project at `project_index` revisits
/// a name already on the active path `visited_path`. Run from an empty
/// path, it says whether the project can reach a dependency cycle; the
/// first cycle found anywhere must abort the whole build.
pub fn has_circular_dependency(
    project_index: usize,
    solution: &Solution,
    visited_path: &Vec<String>,
) -> (r: bool)
    requires
        project_index < solution.projects@.len(),
        visited_path.deep_view().no_duplicates(),
        forall|v: Seq<char>|
            visited_path.deep_view().contains(v) ==> project_names(solution.projects@).contains(v),
    ensures
        r == has_cycle(solution.projects@, project_index as int, visited_path.deep_view()),
    decreases solution.projects@.len() + 1 - visited_path@.len(),
{
    let ghost sol = solution.projects@;
    let ghost idx = project_index as int;
    let ghost vis = visited_path.deep_view();
    proof {
        lemma_visited_below(sol, vis);
    }
    let ghost fuel = (sol.len() + 1 - vis.len()) as nat;
    let n = solution.projects.len();
    let deps_len = solution.projects[project_index].dependencies.len();
    let mut di: usize = 0;
    while di < deps_len
        invariant
            di <= deps_len,
            project_index < sol.len(),
            sol == solution.projects@,
            idx == project_index as int,
            vis == visited_path.deep_view(),
            vis.no_duplicates(),
            forall|v: Seq<char>| vis.contains(v) ==> project_names(sol).contains(v),
            fuel == (sol.len() + 1 - vis.len()) as nat,
            vis.len() <= sol.len(),
            n == sol.len(),
            deps_len == sol[idx].dependencies@.len(),
            cycle_from(sol, idx, vis, fuel) == cycle_deps(sol, idx, di as int, vis, fuel),
        decreases deps_len - di,
    {
        let ghost dep = sol[idx].dependencies@[di as int];
        let mut j: usize = 0;
        while j < n
            invariant
                j <= n,
                di < deps_len,
                project_index < sol.len(),
                sol == solution.projects@,
                idx == project_index as int,
                vis == visited_path.deep_view(),
                vis.no_duplicates(),
                forall|v: Seq<char>| vis.contains(v) ==> project_names(sol).contains(v),
                fuel == (sol.len() + 1 - vis.len()) as nat,
                vis.len() <= sol.len(),
                n == sol.len(),
                deps_len == sol[idx].dependencies@.len(),
                dep == sol[idx].dependencies@[di as int],
                cycle_from(sol, idx, vis, fuel) == cycle_deps(sol, idx, di as int, vis, fuel),
                cycle_cands(sol, idx, di as int, 0, vis, fuel) == cycle_cands(
                    sol,
                    idx,
                    di as int,
                    j as int,
                    vis,
                    fuel,
                ),
            decreases n - j,
        {
            let p = &solution.projects[j];
            let d = &solution.projects[project_index].dependencies[di];
            let name_eq = p.name == d.name;
            let ver_ok = version_check(d.version.as_str(), p.version.as_str());
            if name_eq && ver_ok {
                proof {
                    assert(dep_resolves(sol, dep, j as int));
                }
                if contains_name(visited_path, &p.name) {
                    proof {
                        assert(cycle_cands(sol, idx, di as int, j as int, vis, fuel));
                        assert(cycle_deps(sol, idx, di as int, vis, fuel));
                    }
                    return true;
                } else {
                    let mut new_visited = clone_string_vec(visited_path);
                    let name = p.name.clone();
                    let ghost gname = name;
                    let ghost prev = new_visited;
                    new_visited.push(name);
                    proof {
                        crate::common::lemma_push_deep_view(prev, new_visited, gname);
                        assert(new_visited.deep_view() == vis.push(sol[j as int].name@));
                        lemma_push_visited(sol, vis, j as int);
                        assert(new_visited@.len() == vis.len() + 1);
                    }
                    let sub = has_circular_dependency(j, solution, &new_visited);
                    proof {
                        assert(has_cycle(sol, j as int, vis.push(sol[j as int].name@))
                            == cycle_from(
                            sol,
                            j as int,
                            vis.push(sol[j as int].name@),
                            (fuel - 1) as nat,
                        ));
                    }
                    if sub {
                        proof {
                            assert(cycle_cands(sol, idx, di as int, j as int, vis, fuel));
                            assert(cycle_deps(sol, idx, di as int, vis, fuel));
                        }
                        return true;
                    }
                    proof {
                        assert(cycle_cands(sol, idx, di as int, j as int, vis, fuel)
                            == cycle_cands(sol, idx, di as int, j + 1, vis, fuel));
                    }
                }
            } else {
                proof {
                    assert(!dep_resolves(sol, dep, j as int));
                    assert(cycle_cands(sol, idx, di as int, j as int, vis, fuel) == cycle_cands(
                        sol,
                        idx,
                        di as int,
                        j + 1,
                        vis,
                        fuel,
                    ));
                }
            }
            j = j + 1;
        }
        proof {
            assert(!cycle_cands(sol, idx, di as int, n as int, vis, fuel));
            assert(cycle_deps(sol, idx, di as int, vis, fuel) == cycle_deps(
                sol,
                idx,
                di + 1,
                vis,
                fuel,
            ));
        }
        di = di + 1;
    }
    proof {
        assert(!cycle_deps(sol, idx, deps_len as int, vis, fuel));
    }
    false
}

} // verus!
