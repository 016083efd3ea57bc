//! The solution / project data model: an immutable description of the
//! configuration graph, parsed once at startup and read-only thereafter.

use vstd::prelude::*;
use vstd::string::StringExecFns;

verus! {

/// A target CPU architecture a project can declare support for.
#[derive(Clone, Copy, PartialEq, Eq, Structural, Debug)]
pub enum TargetArch {
    X86,
    X64,
    ARM,
    ARM64,
    RISCV64,
}

/// A target operating platform a project can declare support for.
#[derive(Clone, Copy, PartialEq, Eq, Structural, Debug)]
pub enum Platform {
    Win,
    Linux,
    Macos,
    Unknown,
}

/// The kind of artifact a project builds into.
#[derive(Clone, Copy, PartialEq, Eq, Structural, Debug)]
pub enum ProjectType {
    StaticLib,
    DynamicLib,
    Executable,
}

/// A declared dependency: the name of a target project and the
/// version-constraint string its version must satisfy.
#[derive(Debug)]
pub struct Dependency {
    pub name: String,
    pub version: String,
}

/// One buildable unit of a solution, with its sources under `path`
/// (relative to the solution root), its declared dependencies, and the
/// architectures and platforms it supports.
#[derive(Debug)]
pub struct Project {
    pub name: String,
    pub version: String,
    pub project_type: ProjectType,
    pub target_archs: Vec<TargetArch>,
    pub target_platforms: Vec<Platform>,
    pub path: String,
    pub dependencies: Vec<Dependency>,
    pub additional_includes: Vec<String>,
}

impl Dependency {
    pub fn new(name: &str, version: &str) -> (d: Dependency)
        ensures
            d.name@ == name@,
            d.version@ == version@,
    {
        Dependency { name: String::from_str(name), version: String::from_str(version) }
    }
}

impl Project {
    pub fn new(
        name: &str,
        version: &str,
        project_type: ProjectType,
        target_archs: Vec<TargetArch>,
        target_platforms: Vec<Platform>,
        path: &str,
        dependencies: Vec<Dependency>,
        additional_includes: Vec<String>,
    ) -> (p: Project)
        ensures
            p.name@ == name@,
            p.version@ == version@,
            p.project_type == project_type,
            p.target_archs == target_archs,
            p.target_platforms == target_platforms,
            p.path@ == path@,
            p.dependencies == dependencies,
            p.additional_includes == additional_includes,
    {
        Project {
            name: String::from_str(name),
            version: String::from_str(version),
            project_type,
            target_archs,
            target_platforms,
            path: String::from_str(path),
            dependencies,
            additional_includes,
        }
    }
}

/// A top-level configuration unit: a named, ordered list of projects.
#[derive(Debug)]
pub struct Solution {
    pub name: String,
    pub projects: Vec<Project>,
}

impl Solution {
    pub fn new(name: &str, projects: Vec<Project>) -> (s: Solution)
        ensures
            s.name@ == name@,
            s.projects == projects,
    {
        Solution { name: String::from_str(name), projects }
    }
}

} // verus!
