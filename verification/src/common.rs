//! The compiler-backend contract: the capability set a backend offers to
//! the build orchestrator, and the data it trades in.
//!
//! A backend never runs a process itself: each operation plans the exact
//! command to run, and the caller spawns it. The plan of each backend is
//! pinned by its own spec functions, so a caller bound to a concrete
//! backend knows every command it will be handed.

use vstd::prelude::*;
use crate::solution::{Project, ProjectType};

verus! {

/// One planned invocation of an external tool.
#[derive(Debug)]
pub struct Command {
    pub program: String,
    pub args: Vec<String>,
}

/// The mathematical image of a command: its program and arguments.
pub type CommandModel = (Seq<char>, Seq<Seq<char>>);

impl View for Command {
    type V = CommandModel;

    open spec fn view(&self) -> CommandModel {
        (self.program@, self.args.deep_view())
    }
}

/// Pushing one string onto a vector pushes its view onto the deep view.
pub proof fn lemma_push_deep_view(a: Vec<String>, b: Vec<String>, x: String)
    requires
        b@ == a@.push(x),
    ensures
        b.deep_view() =~= a.deep_view().push(x@),
{
    assert forall|j: int| 0 <= j < b.deep_view().len() implies b.deep_view()[j]
        == a.deep_view().push(x@)[j] by {
        if j < a@.len() {
            assert(b@[j] == a@[j]);
        } else {
            assert(b@[j] == x);
        }
    }
}

/// Why a build run halts. Graph errors are found before any process is
/// spawned; path errors name the offending path; a process failure aborts
/// the run at once.
#[derive(Debug)]
pub enum BuildError {
    CircularDependency(String),
    UnsupportedTarget(String),
    MissingPath(String),
    MissingDependencyOutput(String),
    ProcessFailure(String),
}

/// The state of one project during one build run. There is no cached or
/// up-to-date state: every run starts every project at `Unbuilt`.
#[derive(Clone, Copy, PartialEq, Eq, Structural, Debug)]
pub enum BuildState {
    Unbuilt,
    Compiling,
    Compiled,
    Linking,
    Linked,
    Failed,
}

/// What happens to a project while it is built.
#[derive(Clone, Copy, PartialEq, Eq, Structural, Debug)]
pub enum BuildEvent {
    StartCompile,
    CompileDone,
    StartLink,
    LinkDone,
    Failure,
}

/// The per-project transitions of one build run: compiling then linking,
/// with a failure while compiling or linking reaching the terminal
/// `Failed`, which halts the whole orchestrator. Any other event leaves
/// the state as it is; in particular `Linked` and `Failed` are terminal.
pub open spec fn next_state(s: BuildState, e: BuildEvent) -> BuildState {
    match (s, e) {
        (BuildState::Unbuilt, BuildEvent::StartCompile) => BuildState::Compiling,
        (BuildState::Compiling, BuildEvent::CompileDone) => BuildState::Compiled,
        (BuildState::Compiled, BuildEvent::StartLink) => BuildState::Linking,
        (BuildState::Linking, BuildEvent::LinkDone) => BuildState::Linked,
        (BuildState::Compiling, BuildEvent::Failure) => BuildState::Failed,
        (BuildState::Linking, BuildEvent::Failure) => BuildState::Failed,
        (other, _) => other,
    }
}

/// Moves a project's state by one event of its build run.
pub fn advance(state: BuildState, event: BuildEvent) -> (r: BuildState)
    ensures
        r == next_state(state, event),
{
    match (state, event) {
        (BuildState::Unbuilt, BuildEvent::StartCompile) => BuildState::Compiling,
        (BuildState::Compiling, BuildEvent::CompileDone) => BuildState::Compiled,
        (BuildState::Compiled, BuildEvent::StartLink) => BuildState::Linking,
        (BuildState::Linking, BuildEvent::LinkDone) => BuildState::Linked,
        (BuildState::Compiling, BuildEvent::Failure) => BuildState::Failed,
        (BuildState::Linking, BuildEvent::Failure) => BuildState::Failed,
        (other, _) => other,
    }
}

/// The capability set every compiler backend implements. Each operation
/// is a pure plan; the spec functions pin, per backend, exactly which
/// commands come out.
pub trait Compiler: Sized {
    /// The command that compiles one translation unit, or `None` when the
    /// file's extension is not a supported source kind (a non-fatal skip).
    spec fn compile_file_spec(
        &self,
        source_dir: Seq<char>,
        output_dir: Seq<char>,
        rel_file: Seq<char>,
        extra_includes: Seq<Seq<char>>,
    ) -> Option<CommandModel>;

    /// Plans the compilation of `rel_file`, found under `source_dir`, into
    /// an object file under `output_dir`, with one include flag per
    /// directory of `extra_includes`.
    fn compile_file(
        &self,
        source_dir: &str,
        output_dir: &str,
        rel_file: &str,
        extra_includes: &Vec<String>,
    ) -> (r: Option<Command>)
        ensures
            (match r {
                Some(c) => Some(c@),
                None => None,
            }) == self.compile_file_spec(
                source_dir@,
                output_dir@,
                rel_file@,
                extra_includes.deep_view(),
            ),
    ;

    /// The commands that compile a whole project: one per supported source
    /// file of `files`, in order.
    spec fn compile_project_spec(
        &self,
        project: Project,
        solution_root: Seq<char>,
        files: Seq<Seq<char>>,
        include_dirs: Seq<Seq<char>>,
    ) -> Seq<CommandModel>;

    /// Plans the compilation of every supported source file of `files`
    /// (paths relative to the project's source directory), in order.
    fn compile_project(
        &self,
        project: &Project,
        solution_root: &str,
        files: &Vec<String>,
        include_dirs: &Vec<String>,
    ) -> (r: Vec<Command>)
        ensures
            r@.map_values(|c: Command| c@) == self.compile_project_spec(
                *project,
                solution_root@,
                files.deep_view(),
                include_dirs.deep_view(),
            ),
    ;

    /// The single link command of a project that does link.
    spec fn link_project_spec(
        &self,
        project: Project,
        solution_root: Seq<char>,
        objects: Seq<Seq<char>>,
    ) -> CommandModel;

    /// Plans the link of `project` over the given object files. A static
    /// library is a no-op success for every backend: its objects are left
    /// as they are and no linker runs.
    fn link_project(&self, project: &Project, solution_root: &str, objects: &Vec<String>) -> (r:
        Option<Command>)
        ensures
            (project.project_type == ProjectType::StaticLib) == (r is None),
            (match r {
                Some(c) => c@ == self.link_project_spec(*project, solution_root@, objects.deep_view()),
                None => true,
            }),
    ;
}

} // verus!
