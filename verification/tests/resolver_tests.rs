use spbuild::dependency_resolver::{
    find_local_dependencies, has_circular_dependency, resolve_local_dependencies_in_order,
};
use spbuild::solution::{Dependency, Platform, Project, ProjectType, Solution, TargetArch};

fn project(name: &str, version: &str, deps: Vec<(&str, &str)>) -> Project {
    let dependencies = deps.into_iter().map(|(n, v)| Dependency::new(n, v)).collect();
    Project::new(
        name,
        version,
        ProjectType::Executable,
        vec![TargetArch::X64],
        vec![Platform::Linux],
        name,
        dependencies,
        vec![],
    )
}

#[test]
fn two_node_cycle_is_reported_from_either_side() {
    let solution = Solution::new(
        "s",
        vec![
            project("A", "1.0.0", vec![("B", "1.0.0")]),
            project("B", "1.0.0", vec![("A", "1.0.0")]),
        ],
    );
    assert!(has_circular_dependency(0, &solution, &vec![]));
    assert!(has_circular_dependency(1, &solution, &vec![]));
}

#[test]
fn chain_has_no_cycle() {
    let solution = Solution::new(
        "s",
        vec![
            project("A", "1.0.0", vec![("B", "1.0.0")]),
            project("B", "1.0.0", vec![("C", "1.0.0")]),
            project("C", "1.0.0", vec![]),
        ],
    );
    assert!(!has_circular_dependency(0, &solution, &vec![]));
    assert!(!has_circular_dependency(1, &solution, &vec![]));
    assert!(!has_circular_dependency(2, &solution, &vec![]));
}

#[test]
fn self_dependency_is_a_cycle() {
    let solution = Solution::new("s", vec![project("A", "1.0.0", vec![("A", "1.0.0")])]);
    assert!(has_circular_dependency(0, &solution, &vec![]));
}

#[test]
fn chain_resolves_in_dependency_first_order() {
    let solution = Solution::new(
        "s",
        vec![
            project("A", "1.0.0", vec![("B", "1.0.0")]),
            project("B", "1.0.0", vec![("C", "1.0.0")]),
            project("C", "1.0.0", vec![]),
        ],
    );
    let order = resolve_local_dependencies_in_order(0, &solution);
    assert_eq!(order, vec![2, 1]);
}

#[test]
fn version_mismatched_dependency_is_treated_as_external() {
    let solution = Solution::new(
        "s",
        vec![
            project("A", "1.0.0", vec![("B", "^2.0.0")]),
            project("B", "1.0.0", vec![]),
        ],
    );
    assert_eq!(find_local_dependencies(0, &solution), Vec::<usize>::new());
    assert_eq!(resolve_local_dependencies_in_order(0, &solution), Vec::<usize>::new());
}

#[test]
fn matching_dependencies_are_found_with_constraints() {
    let solution = Solution::new(
        "s",
        vec![
            project("A", "1.0.0", vec![("B", "^1.2.0"), ("C", ">=0.9")]),
            project("B", "1.7.4", vec![]),
            project("C", "0.9.0", vec![]),
        ],
    );
    assert_eq!(find_local_dependencies(0, &solution), vec![1, 2]);
}

#[test]
fn duplicate_names_all_match() {
    let solution = Solution::new(
        "s",
        vec![
            project("A", "1.0.0", vec![("B", "1.0.0")]),
            project("B", "1.0.0", vec![]),
            project("B", "1.0.0", vec![]),
        ],
    );
    assert_eq!(find_local_dependencies(0, &solution), vec![1, 2]);
}

#[test]
fn shared_dependency_appears_once_in_order() {
    let solution = Solution::new(
        "s",
        vec![
            project("A", "1.0.0", vec![("B", "1.0.0"), ("C", "1.0.0")]),
            project("B", "1.0.0", vec![("D", "1.0.0")]),
            project("C", "1.0.0", vec![("D", "1.0.0")]),
            project("D", "1.0.0", vec![]),
        ],
    );
    let order = resolve_local_dependencies_in_order(0, &solution);
    assert_eq!(order, vec![3, 1, 2]);
}
