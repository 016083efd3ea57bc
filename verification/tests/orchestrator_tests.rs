use spbuild::common::BuildError;
use spbuild::orchestrator::{plan_solution_build, resolve_project_build_inputs};
use spbuild::solution::{Dependency, Platform, Project, ProjectType, Solution, TargetArch};
use spbuild::target::Target;

fn project(name: &str, deps: Vec<&str>, includes: Vec<&str>) -> Project {
    let dependencies = deps.into_iter().map(|n| Dependency::new(n, "1.0.0")).collect();
    let additional_includes = includes.into_iter().map(|s| s.to_string()).collect();
    Project::new(
        name,
        "1.0.0",
        ProjectType::Executable,
        vec![TargetArch::X64],
        vec![Platform::Linux],
        name,
        dependencies,
        additional_includes,
    )
}

fn linux_x64() -> Target {
    Target::new(TargetArch::X64, Platform::Linux)
}

#[test]
fn build_inputs_derive_includes_and_dependency_output_dirs() {
    let solution = Solution::new(
        "s",
        vec![project("A", vec!["B"], vec!["inc"]), project("B", vec![], vec![])],
    );
    let inputs = resolve_project_build_inputs(0, &solution, "/r");
    assert_eq!(inputs.ordered_deps, vec![1]);
    assert_eq!(inputs.include_dirs, vec!["/r/A/inc".to_string(), "/r/B".to_string()]);
    assert_eq!(inputs.dep_output_dirs, vec!["/r/output/B".to_string()]);
}

#[test]
fn shared_dependency_is_planned_exactly_once() {
    let solution = Solution::new(
        "s",
        vec![
            project("A", vec!["C"], vec![]),
            project("B", vec!["C"], vec![]),
            project("C", vec![], vec![]),
        ],
    );
    let steps = plan_solution_build(&solution, &linux_x64(), "/r").unwrap();
    let c_steps = steps.iter().filter(|s| s.project_index == 2).count();
    assert_eq!(c_steps, 1);
    let indices: Vec<usize> = steps.iter().map(|s| s.project_index).collect();
    assert_eq!(indices, vec![2, 0, 1]);
}

#[test]
fn dependencies_are_planned_before_dependents() {
    let solution = Solution::new(
        "s",
        vec![
            project("A", vec!["B"], vec![]),
            project("B", vec!["C"], vec![]),
            project("C", vec![], vec![]),
        ],
    );
    let steps = plan_solution_build(&solution, &linux_x64(), "/r").unwrap();
    let indices: Vec<usize> = steps.iter().map(|s| s.project_index).collect();
    assert_eq!(indices, vec![2, 1, 0]);
}

#[test]
fn a_dependency_built_for_another_project_gets_no_extra_dirs() {
    let solution = Solution::new(
        "s",
        vec![project("A", vec!["B"], vec![]), project("B", vec![], vec!["binc"])],
    );
    let steps = plan_solution_build(&solution, &linux_x64(), "/r").unwrap();
    assert_eq!(steps[0].project_index, 1);
    assert!(steps[0].include_dirs.is_empty());
    assert!(steps[0].dep_output_dirs.is_empty());
    assert_eq!(steps[1].project_index, 0);
    assert_eq!(steps[1].include_dirs, vec!["/r/B".to_string()]);
}

#[test]
fn a_cycle_anywhere_aborts_the_whole_build() {
    let solution = Solution::new(
        "s",
        vec![
            project("A", vec![], vec![]),
            project("B", vec!["C"], vec![]),
            project("C", vec!["B"], vec![]),
        ],
    );
    match plan_solution_build(&solution, &linux_x64(), "/r") {
        Err(BuildError::CircularDependency(name)) => assert_eq!(name, "B"),
        _ => panic!("a dependency cycle must abort the build"),
    }
}

#[test]
fn unsupported_target_aborts_before_any_step() {
    let only_x86 = Project::new(
        "A",
        "1.0.0",
        ProjectType::Executable,
        vec![TargetArch::X86],
        vec![Platform::Linux],
        "A",
        vec![],
        vec![],
    );
    let solution = Solution::new("s", vec![only_x86, project("B", vec![], vec![])]);
    match plan_solution_build(&solution, &linux_x64(), "/r") {
        Err(BuildError::UnsupportedTarget(name)) => assert_eq!(name, "A"),
        _ => panic!("an unsupported target must abort the build"),
    }
}

#[test]
fn planning_twice_derives_the_identical_plan() {
    let solution = Solution::new(
        "s",
        vec![
            project("A", vec!["C"], vec!["inc"]),
            project("B", vec!["C"], vec![]),
            project("C", vec![], vec![]),
        ],
    );
    let first = plan_solution_build(&solution, &linux_x64(), "/r").unwrap();
    let second = plan_solution_build(&solution, &linux_x64(), "/r").unwrap();
    assert_eq!(first, second);
}

#[test]
fn an_empty_solution_plans_no_steps() {
    let solution = Solution::new("s", vec![]);
    let steps = plan_solution_build(&solution, &linux_x64(), "/r").unwrap();
    assert!(steps.is_empty());
}

#[test]
fn version_mismatched_dependencies_do_not_gate_the_plan() {
    let solution = Solution::new(
        "s",
        vec![
            Project::new(
                "A",
                "1.0.0",
                ProjectType::Executable,
                vec![TargetArch::X64],
                vec![Platform::Linux],
                "A",
                vec![Dependency::new("B", "^9.0.0")],
                vec![],
            ),
            project("B", vec![], vec![]),
        ],
    );
    let steps = plan_solution_build(&solution, &linux_x64(), "/r").unwrap();
    let indices: Vec<usize> = steps.iter().map(|s| s.project_index).collect();
    assert_eq!(indices, vec![0, 1]);
}
