//! The build orchestrator: validates a whole solution and plans its
//! build, dependencies before dependents, each project at most once.
//!
//! The plan is derived before anything runs: first every project is
//! checked for dependency cycles, then for target support; the first
//! failure anywhere aborts the whole build. Projects already built are
//! tracked in a name-keyed dictionary of the dict crate that persists
//! across the entire solution build, so a dependency shared by sibling
//! projects is planned at most once per run.

use vstd::prelude::*;
use dict::{Dict, DictEntry, DictIface};
use crate::common::{lemma_push_deep_view, BuildError};
use crate::dependency_resolver::{
    has_circular_dependency, has_cycle, resolve_local_dependencies_in_order,
    resolve_order,
};
use crate::file_tools::{join_path, joined_path};
use crate::solution::{Project, Solution};
use crate::target::{target_supported, Target};

verus! {

/// The entry type of the dict crate's dictionaries (`Dict<T>` is a vector
/// of these, sorted by key hash), opaque here: its contents are reached
/// only through the names and wrappers below.
#[verifier::external_type_specification]
#[verifier::external_body]
#[verifier::reject_recursive_types(T)]
pub struct ExDictEntry<T>(DictEntry<T>);

/// What the dict crate's deterministic hash (std's `DefaultHasher`, which
/// `DefaultHasher::new` seeds the same way everywhere) gives a key.
pub uninterp spec fn dict_hash(key: Seq<char>) -> u64;

/// The contents of a dictionary of strings: its keys and their values.
pub uninterp spec fn dict_map(d: Dict<String>) -> Map<Seq<char>, Seq<char>>;

/// Whether some key of `m` hashes like `key`. This, not key equality, is
/// what the dict crate's lookups answer: a lookup finds the entry by the
/// hash of its key alone.
pub open spec fn covers(m: Map<Seq<char>, Seq<char>>, key: Seq<char>) -> bool {
    exists|k: Seq<char>| #[trigger] m.dom().contains(k) && dict_hash(k) == dict_hash(key)
}

/// Whether some present key of the dictionary hashes like `key`.
pub open spec fn dict_covers(d: Dict<String>, key: Seq<char>) -> bool {
    covers(dict_map(d), key)
}

/// The contents of a dictionary nothing was added to.
pub open spec fn no_contents() -> Map<Seq<char>, Seq<char>> {
    Map::empty()
}

/// Relies on `Dict::new` of the dict crate: a new dictionary is empty.
#[verifier::external_body]
fn dict_new() -> (fresh: Dict<String>)
    ensures
        dict_map(fresh) == no_contents(),
{
    Dict::<String>::new()
}

/// Relies on `DictIface::add` of the dict crate: the pair goes in unless
/// some present key hashes like the new one, in which case nothing
/// changes and `false` comes back. Every dictionary of this crate is
/// built through `dict_new` and `dict_add` alone, which keeps the entries
/// sorted by hash, as the crate's binary-search lookups assume.
#[verifier::external_body]
fn dict_add(d: &mut Dict<String>, key: &String, val: &String) -> (r: bool)
    ensures
        r == !dict_covers(*old(d), key@),
        r ==> dict_map(*final(d)) == dict_map(*old(d)).insert(key@, val@),
        !r ==> dict_map(*final(d)) == dict_map(*old(d)),
{
    d.add(key.clone(), val.clone())
}

/// Relies on `DictIface::contains_key` of the dict crate: answers whether
/// some present key hashes like the queried one.
#[verifier::external_body]
fn dict_contains_key(d: &Dict<String>, key: &String) -> (r: bool)
    ensures
        r == (exists|k: Seq<char>|
            #[trigger] dict_map(*d).dom().contains(k) && dict_hash(k) == dict_hash(key@)),
{
    d.contains_key(key.as_str())
}

/// The include directories a project is compiled with: its additional
/// includes resolved under its own source directory, then the source
/// root of each transitive local dependency.
pub open spec fn include_dirs_spec(sol: Seq<Project>, idx: int, root: Seq<char>) -> Seq<Seq<char>> {
    sol[idx].additional_includes.deep_view().map_values(
        |inc: Seq<char>| joined_path(joined_path(root, sol[idx].path@), inc),
    ) + resolve_order(sol, idx).map_values(|d: int| joined_path(root, sol[d].path@))
}

/// The link-input directories of a project: the output directory of each
/// transitive local dependency, under `<root>/output`.
pub open spec fn dep_output_dirs_spec(sol: Seq<Project>, idx: int, root: Seq<char>) -> Seq<
    Seq<char>,
> {
    resolve_order(sol, idx).map_values(
        |d: int| joined_path(joined_path(root, "output"@), sol[d].path@),
    )
}

/// The derived build inputs of one project: its transitive local
/// dependencies in build order, its include directories, and the output
/// directories its link inputs come from. The caller must ensure the
/// directories exist before using them; a missing one is a fatal error.
#[derive(Debug)]
pub struct BuildInputs {
    pub ordered_deps: Vec<usize>,
    pub include_dirs: Vec<String>,
    pub dep_output_dirs: Vec<String>,
}

/// Derives the build inputs of the project at `project_index`: the
/// transitive dependency order, one include directory per additional
/// include (under the project's source directory) and per dependency
/// source root, and one link-input directory per dependency output.
pub fn resolve_project_build_inputs(
    project_index: usize,
    solution: &Solution,
    solution_root: &str,
) -> (r: BuildInputs)
    requires
        project_index < solution.projects@.len(),
    ensures
        r.ordered_deps@.map_values(|u: usize| u as int) == resolve_order(
            solution.projects@,
            project_index as int,
        ),
        forall|k: int|
            0 <= k < r.ordered_deps@.len() ==> #[trigger] r.ordered_deps@[k]
                < solution.projects@.len(),
        r.ordered_deps@.no_duplicates(),
        r.include_dirs.deep_view() == include_dirs_spec(
            solution.projects@,
            project_index as int,
            solution_root@,
        ),
        r.dep_output_dirs.deep_view() == dep_output_dirs_spec(
            solution.projects@,
            project_index as int,
            solution_root@,
        ),
{
    let ghost sol = solution.projects@;
    let ghost idx = project_index as int;
    let ghost root = solution_root@;
    let ghost order = resolve_order(sol, idx);
    let ordered_deps = resolve_local_dependencies_in_order(project_index, solution);

    let mut include_dirs: Vec<String> = Vec::new();
    let project_dir = join_path(solution_root, solution.projects[project_index].path.as_str());
    let ghost incs = solution.projects@[idx].additional_includes.deep_view();
    let ghost inc_part = incs.map_values(
        |inc: Seq<char>| joined_path(joined_path(root, sol[idx].path@), inc),
    );
    let n_incs = solution.projects[project_index].additional_includes.len();
    let mut i: usize = 0;
    while i < n_incs
        invariant
            i <= n_incs,
            project_index < sol.len(),
            sol == solution.projects@,
            idx == project_index as int,
            root == solution_root@,
            incs == solution.projects@[idx].additional_includes.deep_view(),
            inc_part == incs.map_values(
                |inc: Seq<char>| joined_path(joined_path(root, sol[idx].path@), inc),
            ),
            n_incs == incs.len(),
            project_dir@ == joined_path(root, sol[idx].path@),
            include_dirs.deep_view() =~= inc_part.take(i as int),
        decreases n_incs - i,
    {
        let dir = join_path(
            project_dir.as_str(),
            solution.projects[project_index].additional_includes[i].as_str(),
        );
        let ghost gdir = dir;
        let ghost prev = include_dirs;
        include_dirs.push(dir);
        proof {
            lemma_push_deep_view(prev, include_dirs, gdir);
            assert(include_dirs.deep_view() =~= inc_part.take(i + 1));
        }
        i = i + 1;
    }
    proof {
        assert(inc_part.take(n_incs as int) =~= inc_part);
    }

    let ghost dep_part = order.map_values(|d: int| joined_path(root, sol[d].path@));
    let n_deps = ordered_deps.len();
    let mut k: usize = 0;
    while k < n_deps
        invariant
            k <= n_deps,
            project_index < sol.len(),
            sol == solution.projects@,
            idx == project_index as int,
            root == solution_root@,
            order == resolve_order(sol, idx),
            ordered_deps@.map_values(|u: usize| u as int) == order,
            forall|t: int| 0 <= t < ordered_deps@.len() ==> #[trigger] ordered_deps@[t] < sol.len(),
            dep_part == order.map_values(|d: int| joined_path(root, sol[d].path@)),
            n_deps == order.len(),
            include_dirs.deep_view() =~= inc_part + dep_part.take(k as int),
        decreases n_deps - k,
    {
        let d = ordered_deps[k];
        let dir = join_path(solution_root, solution.projects[d].path.as_str());
        let ghost gdir = dir;
        let ghost prev = include_dirs;
        include_dirs.push(dir);
        proof {
            lemma_push_deep_view(prev, include_dirs, gdir);
            assert(order[k as int] == ordered_deps@[k as int] as int);
            assert(include_dirs.deep_view() =~= inc_part + dep_part.take(k + 1));
        }
        k = k + 1;
    }
    proof {
        assert(dep_part.take(n_deps as int) =~= dep_part);
        assert(include_dirs.deep_view() =~= include_dirs_spec(sol, idx, root));
    }

    let mut dep_output_dirs: Vec<String> = Vec::new();
    let out_base = join_path(solution_root, "output");
    let ghost out_part = order.map_values(
        |d: int| joined_path(joined_path(root, "output"@), sol[d].path@),
    );
    let mut k2: usize = 0;
    while k2 < n_deps
        invariant
            k2 <= n_deps,
            project_index < sol.len(),
            sol == solution.projects@,
            idx == project_index as int,
            root == solution_root@,
            order == resolve_order(sol, idx),
            ordered_deps@.map_values(|u: usize| u as int) == order,
            forall|t: int| 0 <= t < ordered_deps@.len() ==> #[trigger] ordered_deps@[t] < sol.len(),
            out_part == order.map_values(
                |d: int| joined_path(joined_path(root, "output"@), sol[d].path@),
            ),
            n_deps == order.len(),
            out_base@ == joined_path(root, "output"@),
            dep_output_dirs.deep_view() =~= out_part.take(k2 as int),
        decreases n_deps - k2,
    {
        let d = ordered_deps[k2];
        let dir = join_path(out_base.as_str(), solution.projects[d].path.as_str());
        let ghost gdir = dir;
        let ghost prev = dep_output_dirs;
        dep_output_dirs.push(dir);
        proof {
            lemma_push_deep_view(prev, dep_output_dirs, gdir);
            assert(order[k2 as int] == ordered_deps@[k2 as int] as int);
            assert(dep_output_dirs.deep_view() =~= out_part.take(k2 + 1));
        }
        k2 = k2 + 1;
    }
    proof {
        assert(out_part.take(n_deps as int) =~= out_part);
    }

    BuildInputs { ordered_deps, include_dirs, dep_output_dirs }
}

/// One planned whole-project build: which project, and with which include
/// and link-input directories. A project built as a bare dependency of
/// another gets no extra directories.
#[derive(Debug, PartialEq)]
pub struct BuildStep {
    pub project_index: usize,
    pub include_dirs: Vec<String>,
    pub dep_output_dirs: Vec<String>,
}

/// The mathematical image of one step.
pub type StepModel = (int, Seq<Seq<char>>, Seq<Seq<char>>);

impl View for BuildStep {
    type V = StepModel;

    open spec fn view(&self) -> StepModel {
        (self.project_index as int, self.include_dirs.deep_view(), self.dep_output_dirs.deep_view())
    }
}

/// The first project index at or after `i` whose dependency walk meets a
/// cycle, or the solution's length when none does.
pub open spec fn first_cycle_index(sol: Seq<Project>, i: int) -> int
    decreases (if 0 <= i < sol.len() {
        sol.len() - i
    } else {
        0
    }),
{
    if !(0 <= i < sol.len()) {
        sol.len() as int
    } else if has_cycle(sol, i, Seq::<Seq<char>>::empty()) {
        i
    } else {
        first_cycle_index(sol, i + 1)
    }
}

/// The first project index at or after `i` that does not support the
/// target, or the solution's length when all do.
pub open spec fn first_unsupported_index(sol: Seq<Project>, t: Target, i: int) -> int
    decreases (if 0 <= i < sol.len() {
        sol.len() - i
    } else {
        0
    }),
{
    if !(0 <= i < sol.len()) {
        sol.len() as int
    } else if !target_supported(sol[i], t) {
        i
    } else {
        first_unsupported_index(sol, t, i + 1)
    }
}

/// Planning the dependencies of one project, from position `k` of its
/// build order on: each not-yet-built dependency gets a bare step and is
/// marked built.
pub open spec fn plan_deps(
    sol: Seq<Project>,
    order: Seq<int>,
    k: int,
    built: Map<Seq<char>, Seq<char>>,
    steps: Seq<StepModel>,
) -> (Map<Seq<char>, Seq<char>>, Seq<StepModel>)
    decreases (if 0 <= k < order.len() {
        order.len() - k
    } else {
        0
    }),
{
    if !(0 <= k < order.len()) {
        (built, steps)
    } else {
        let d = order[k];
        let next = if 0 <= d < sol.len() && !covers(built, sol[d].name@) {
            (
                built.insert(sol[d].name@, sol[d].path@),
                steps.push((d, Seq::<Seq<char>>::empty(), Seq::<Seq<char>>::empty())),
            )
        } else {
            (built, steps)
        };
        plan_deps(sol, order, k + 1, next.0, next.1)
    }
}

/// Planning the solution from project `i` on: each project's not-yet-built
/// dependencies are planned first with no extra directories, then the
/// project itself with its resolved inputs, unless it was already built as
/// a dependency of an earlier project.
pub open spec fn plan_steps_from(
    sol: Seq<Project>,
    root: Seq<char>,
    i: int,
    built: Map<Seq<char>, Seq<char>>,
    steps: Seq<StepModel>,
) -> Seq<StepModel>
    decreases (if 0 <= i < sol.len() {
        sol.len() - i
    } else {
        0
    }),
{
    if !(0 <= i < sol.len()) {
        steps
    } else {
        let after_deps = plan_deps(sol, resolve_order(sol, i), 0, built, steps);
        let next = if !covers(after_deps.0, sol[i].name@) {
            (
                after_deps.0.insert(sol[i].name@, sol[i].path@),
                after_deps.1.push(
                    (i, include_dirs_spec(sol, i, root), dep_output_dirs_spec(sol, i, root)),
                ),
            )
        } else {
            after_deps
        };
        plan_steps_from(sol, root, i + 1, next.0, next.1)
    }
}

/// The planned steps of a whole solution build.
pub open spec fn plan_steps(sol: Seq<Project>, root: Seq<char>) -> Seq<StepModel> {
    plan_steps_from(sol, root, 0, Map::<Seq<char>, Seq<char>>::empty(), Seq::<StepModel>::empty())
}

/// Re-deriving the plan of an unchanged solution gives the identical
/// plan: the planned steps are a function of the solution and the
/// solution root alone, so running the build twice derives byte-identical
/// commands and object sets, by re-computation rather than by caching.
pub proof fn lemma_plan_rederivation(
    sol: Seq<Project>,
    root: Seq<char>,
    first: Seq<StepModel>,
    second: Seq<StepModel>,
)
    requires
        first == plan_steps(sol, root),
        second == plan_steps(sol, root),
    ensures
        first == second,
{
}

/// Validates and plans a whole solution build for one target. The first
/// project whose dependency walk meets a cycle fails the build; then the
/// first project that does not support the target fails it; both before
/// any step is planned. Otherwise the steps cover, in order, each
/// project's not-yet-built dependencies (bare) and then the project
/// itself (with its resolved inputs), and no project name is planned
/// twice: a dependency shared by sibling projects is built at most once
/// per whole-solution run.
pub fn plan_solution_build(solution: &Solution, target: &Target, solution_root: &str) -> (r: Result<
    Vec<BuildStep>,
    BuildError,
>)
    ensures
        ({
            let sol = solution.projects@;
            let ci = first_cycle_index(sol, 0);
            let ui = first_unsupported_index(sol, *target, 0);
            match r {
                Result::Ok(steps) => ci == sol.len() && ui == sol.len() && steps@.map_values(
                    |s: BuildStep| s@,
                ) == plan_steps(sol, solution_root@) && (forall|a: int, b: int|
                    0 <= a < b < steps@.len()
                        ==> sol[#[trigger] steps@[a].project_index as int].name@
                        != sol[#[trigger] steps@[b].project_index as int].name@) && (forall|a: int|
                    0 <= a < steps@.len() ==> #[trigger] steps@[a].project_index < sol.len()),
                Result::Err(BuildError::CircularDependency(nm)) => ci < sol.len() && nm@
                    == sol[ci].name@,
                Result::Err(BuildError::UnsupportedTarget(nm)) => ci == sol.len() && ui < sol.len()
                    && nm@ == sol[ui].name@,
                _ => false,
            }
        }),
{
    let ghost sol = solution.projects@;
    let ghost root = solution_root@;
    let n = solution.projects.len();

    let empty_path: Vec<String> = Vec::new();
    proof {
        assert(empty_path.deep_view() =~= Seq::<Seq<char>>::empty());
    }
    let mut i: usize = 0;
    while i < n
        invariant
            i <= n,
            sol == solution.projects@,
            n == sol.len(),
            empty_path.deep_view() == Seq::<Seq<char>>::empty(),
            empty_path@.len() == 0,
            first_cycle_index(sol, 0) == first_cycle_index(sol, i as int),
        decreases n - i,
    {
        if has_circular_dependency(i, solution, &empty_path) {
            proof {
                assert(first_cycle_index(sol, i as int) == i as int);
            }
            return Err(BuildError::CircularDependency(solution.projects[i].name.clone()));
        }
        proof {
            assert(first_cycle_index(sol, i as int) == first_cycle_index(sol, i + 1));
        }
        i = i + 1;
    }
    proof {
        assert(first_cycle_index(sol, n as int) == n as int);
    }

    let mut u: usize = 0;
    while u < n
        invariant
            u <= n,
            sol == solution.projects@,
            n == sol.len(),
            first_cycle_index(sol, 0) == sol.len() as int,
            first_unsupported_index(sol, *target, 0) == first_unsupported_index(
                sol,
                *target,
                u as int,
            ),
        decreases n - u,
    {
        if !target.supports(&solution.projects[u]) {
            proof {
                assert(first_unsupported_index(sol, *target, u as int) == u as int);
            }
            return Err(BuildError::UnsupportedTarget(solution.projects[u].name.clone()));
        }
        proof {
            assert(first_unsupported_index(sol, *target, u as int) == first_unsupported_index(
                sol,
                *target,
                u + 1,
            ));
        }
        u = u + 1;
    }
    proof {
        assert(first_unsupported_index(sol, *target, n as int) == n as int);
    }

    let mut built = dict_new();
    let mut steps: Vec<BuildStep> = Vec::new();
    proof {
        assert(steps@.map_values(|s: BuildStep| s@) =~= Seq::<StepModel>::empty());
    }
    let mut p: usize = 0;
    while p < n
        invariant
            p <= n,
            sol == solution.projects@,
            root == solution_root@,
            n == sol.len(),
            first_cycle_index(sol, 0) == sol.len() as int,
            first_unsupported_index(sol, *target, 0) == sol.len() as int,
            plan_steps(sol, root) == plan_steps_from(
                sol,
                root,
                p as int,
                dict_map(built),
                steps@.map_values(|s: BuildStep| s@),
            ),
            forall|a: int| 0 <= a < steps@.len() ==> #[trigger] steps@[a].project_index < n,
            forall|a: int|
                0 <= a < steps@.len() ==> covers(
                    dict_map(built),
                    sol[#[trigger] steps@[a].project_index as int].name@,
                ),
            forall|a: int, b: int|
                0 <= a < b < steps@.len() ==> sol[#[trigger] steps@[a].project_index as int].name@
                    != sol[#[trigger] steps@[b].project_index as int].name@,
        decreases n - p,
    {
        let inputs = resolve_project_build_inputs(p, solution, solution_root);
        let ghost order = resolve_order(sol, p as int);
        let ghost built0 = dict_map(built);
        let ghost steps0 = steps@.map_values(|s: BuildStep| s@);
        let n_deps = inputs.ordered_deps.len();
        let mut k: usize = 0;
        while k < n_deps
            invariant
                k <= n_deps,
                p < n,
                sol == solution.projects@,
                root == solution_root@,
                n == sol.len(),
                order == resolve_order(sol, p as int),
                inputs.ordered_deps@.map_values(|x: usize| x as int) == order,
                forall|t: int|
                    0 <= t < inputs.ordered_deps@.len() ==> #[trigger] inputs.ordered_deps@[t] < n,
                n_deps == order.len(),
                plan_deps(sol, order, 0, built0, steps0) == plan_deps(
                    sol,
                    order,
                    k as int,
                    dict_map(built),
                    steps@.map_values(|s: BuildStep| s@),
                ),
                forall|a: int| 0 <= a < steps@.len() ==> #[trigger] steps@[a].project_index < n,
                forall|a: int|
                    0 <= a < steps@.len() ==> covers(
                        dict_map(built),
                        sol[#[trigger] steps@[a].project_index as int].name@,
                    ),
                forall|a: int, b: int|
                    0 <= a < b < steps@.len() ==> sol[#[trigger] steps@[a].project_index
                        as int].name@ != sol[#[trigger] steps@[b].project_index as int].name@,
            decreases n_deps - k,
        {
            let d = inputs.ordered_deps[k];
            proof {
                assert(order[k as int] == d as int);
            }
            let ghost bcur = dict_map(built);
            let ghost scur = steps@.map_values(|s: BuildStep| s@);
            if !dict_contains_key(&built, &solution.projects[d].name) {
                let ghost prevsteps = steps@;
                let step = BuildStep {
                    project_index: d,
                    include_dirs: Vec::new(),
                    dep_output_dirs: Vec::new(),
                };
                let ghost gstep = step;
                steps.push(step);
                proof {
                    assert(steps@ == prevsteps.push(gstep));
                    assert(gstep.include_dirs.deep_view() =~= Seq::<Seq<char>>::empty());
                    assert(gstep.dep_output_dirs.deep_view() =~= Seq::<Seq<char>>::empty());
                    assert(gstep@ == (d as int, Seq::<Seq<char>>::empty(), Seq::<Seq<char>>::empty()));
                    assert(steps@.map_values(|s: BuildStep| s@) =~= scur.push(gstep@));
                }
                let added = dict_add(&mut built, &solution.projects[d].name, &solution.projects[d].path);
                proof {
                    assert(added);
                    assert(dict_map(built) == bcur.insert(sol[d as int].name@, sol[d as int].path@));
                    assert(plan_deps(sol, order, k as int, bcur, scur) == plan_deps(
                        sol,
                        order,
                        k + 1,
                        dict_map(built),
                        steps@.map_values(|s: BuildStep| s@),
                    ));
                    assert(covers(dict_map(built), sol[d as int].name@)) by {
                        assert(dict_map(built).dom().contains(sol[d as int].name@));
                    }
                    assert forall|a: int| 0 <= a < steps@.len() implies covers(
                        dict_map(built),
                        sol[#[trigger] steps@[a].project_index as int].name@,
                    ) by {
                        if a < steps@.len() - 1 {
                            let nm = sol[steps@[a].project_index as int].name@;
                            assert(covers(bcur, nm));
                            let w = choose|x: Seq<char>|
                                #[trigger] bcur.dom().contains(x) && dict_hash(x) == dict_hash(nm);
                            assert(dict_map(built).dom().contains(w));
                        }
                    }
                    assert forall|a: int, b: int| 0 <= a < b < steps@.len() implies sol[#[trigger] steps@[a].project_index as int].name@ != sol[#[trigger] steps@[b].project_index as int].name@ by {
                        if b == steps@.len() - 1 {
                            let nm = sol[steps@[a].project_index as int].name@;
                            assert(covers(bcur, nm));
                            if sol[steps@[b].project_index as int].name@ == nm {
                                assert(covers(bcur, sol[d as int].name@));
                            }
                        }
                    }
                }
            } else {
                proof {
                    assert(plan_deps(sol, order, k as int, bcur, scur) == plan_deps(
                        sol,
                        order,
                        k + 1,
                        bcur,
                        scur,
                    ));
                }
            }
            k = k + 1;
        }
        proof {
            let bcur = dict_map(built);
            let scur = steps@.map_values(|s: BuildStep| s@);
            assert(plan_deps(sol, order, n_deps as int, bcur, scur) == (bcur, scur));
            assert(plan_deps(sol, order, 0, built0, steps0) == (bcur, scur));
        }
        let ghost bmid = dict_map(built);
        let ghost smid = steps@.map_values(|s: BuildStep| s@);
        if !dict_contains_key(&built, &solution.projects[p].name) {
            let ghost prevsteps = steps@;
            let step = BuildStep {
                project_index: p,
                include_dirs: inputs.include_dirs,
                dep_output_dirs: inputs.dep_output_dirs,
            };
            let ghost gstep = step;
            steps.push(step);
            proof {
                assert(steps@ == prevsteps.push(gstep));
                assert(gstep@ == (
                    p as int,
                    include_dirs_spec(sol, p as int, root),
                    dep_output_dirs_spec(sol, p as int, root),
                ));
                assert(steps@.map_values(|s: BuildStep| s@) =~= smid.push(gstep@));
            }
            let added = dict_add(&mut built, &solution.projects[p].name, &solution.projects[p].path);
            proof {
                assert(added);
                assert(dict_map(built) == bmid.insert(sol[p as int].name@, sol[p as int].path@));
                assert(plan_steps_from(sol, root, p as int, built0, steps0) == plan_steps_from(
                    sol,
                    root,
                    p + 1,
                    dict_map(built),
                    steps@.map_values(|s: BuildStep| s@),
                ));
                assert(covers(dict_map(built), sol[p as int].name@)) by {
                    assert(dict_map(built).dom().contains(sol[p as int].name@));
                }
                assert forall|a: int| 0 <= a < steps@.len() implies covers(
                    dict_map(built),
                    sol[#[trigger] steps@[a].project_index as int].name@,
                ) by {
                    if a < steps@.len() - 1 {
                        let nm = sol[steps@[a].project_index as int].name@;
                        assert(covers(bmid, nm));
                        let w = choose|x: Seq<char>|
                            #[trigger] bmid.dom().contains(x) && dict_hash(x) == dict_hash(nm);
                        assert(dict_map(built).dom().contains(w));
                    }
                }
                assert forall|a: int, b: int| 0 <= a < b < steps@.len() implies sol[#[trigger] steps@[a].project_index as int].name@ != sol[#[trigger] steps@[b].project_index as int].name@ by {
                    if b == steps@.len() - 1 {
                        let nm = sol[steps@[a].project_index as int].name@;
                        assert(covers(bmid, nm));
                        if sol[steps@[b].project_index as int].name@ == nm {
                            assert(covers(bmid, sol[p as int].name@));
                        }
                    }
                }
            }
        } else {
            proof {
                assert(plan_steps_from(sol, root, p as int, built0, steps0) == plan_steps_from(
                    sol,
                    root,
                    p + 1,
                    bmid,
                    smid,
                ));
            }
        }
        p = p + 1;
    }
    proof {
        assert(plan_steps_from(
            sol,
            root,
            n as int,
            dict_map(built),
            steps@.map_values(|s: BuildStep| s@),
        ) == steps@.map_values(|s: BuildStep| s@));
    }
    Ok(steps)
}

} // verus!
