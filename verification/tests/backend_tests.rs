use spbuild::common::{advance, BuildEvent, BuildState, Compiler};
use spbuild::file_tools::{find_object_files, join_path, with_object_extension};
use spbuild::gcc::GccCompiler;
use spbuild::msvc;
use spbuild::solution::{Platform, Project, ProjectType, TargetArch};
use spbuild::target::{select_backend, Compilers, Target};

fn project(name: &str, project_type: ProjectType) -> Project {
    Project::new(
        name,
        "1.0.0",
        project_type,
        vec![TargetArch::X64],
        vec![Platform::Linux],
        "alpha",
        vec![],
        vec![],
    )
}

#[test]
fn triple_is_arch_token_and_platform_suffix() {
    assert_eq!(Target::new(TargetArch::X64, Platform::Linux).triple(), "x86_64-linux-gnu");
    assert_eq!(Target::new(TargetArch::X86, Platform::Win).triple(), "i686-w64-mingw32");
    assert_eq!(Target::new(TargetArch::ARM64, Platform::Macos).triple(), "aarch64-apple-darwin");
}

#[test]
fn join_path_uses_one_separator() {
    assert_eq!(join_path("/root", "alpha"), "/root/alpha");
}

#[test]
fn object_extension_replaces_the_extension_and_keeps_subdirs() {
    assert_eq!(with_object_extension("main.c"), "main.o");
    assert_eq!(with_object_extension("sub/dir/util.cpp"), "sub/dir/util.o");
    assert_eq!(with_object_extension("noext"), "noext.o");
    assert_eq!(with_object_extension("dir.x/noext"), "dir.x/noext.o");
}

#[test]
fn compile_file_plans_the_exact_driver_call() {
    let gcc = GccCompiler::new(Target::new(TargetArch::X86, Platform::Linux));
    let cmd = gcc
        .compile_file("/r/alpha", "/r/output/alpha", "main.c", &vec!["/r/alpha/inc".to_string()])
        .unwrap();
    assert_eq!(cmd.program, "i686-linux-gnu-gcc");
    assert_eq!(
        cmd.args,
        vec![
            "-c".to_string(),
            "/r/alpha/main.c".to_string(),
            "-o".to_string(),
            "/r/output/alpha/main.o".to_string(),
            "-I/r/alpha/inc".to_string(),
            "-m32".to_string(),
        ]
    );
}

#[test]
fn cpp_sources_select_the_cpp_driver_case_insensitively() {
    let gcc = GccCompiler::new(Target::new(TargetArch::X64, Platform::Linux));
    let none: Vec<String> = vec![];
    for rel in ["a.cpp", "a.CPP", "a.cc", "a.cxx", "a.CxX"] {
        let cmd = gcc.compile_file("/s", "/o", rel, &none).unwrap();
        assert_eq!(cmd.program, "x86_64-linux-gnu-g++");
    }
    let cmd = gcc.compile_file("/s", "/o", "a.C", &none).unwrap();
    assert_eq!(cmd.program, "x86_64-linux-gnu-gcc");
}

#[test]
fn unsupported_extensions_are_skipped() {
    let gcc = GccCompiler::new(Target::new(TargetArch::X64, Platform::Linux));
    let none: Vec<String> = vec![];
    assert!(gcc.compile_file("/s", "/o", "README.md", &none).is_none());
    assert!(gcc.compile_file("/s", "/o", "noext", &none).is_none());
    assert!(gcc.compile_file("/s", "/o", ".c", &none).is_none());
}

#[test]
fn compile_project_plans_one_command_per_supported_source() {
    let gcc = GccCompiler::new(Target::new(TargetArch::X64, Platform::Linux));
    let p = project("alpha", ProjectType::Executable);
    let files = vec!["main.c".to_string(), "util.cpp".to_string(), "README".to_string()];
    let cmds = gcc.compile_project(&p, "/r", &files, &vec![]);
    assert_eq!(cmds.len(), 2);
    assert_eq!(cmds[0].program, "x86_64-linux-gnu-gcc");
    assert_eq!(cmds[0].args[1], "/r/alpha/main.c");
    assert_eq!(cmds[0].args[3], "/r/output/alpha/main.o");
    assert_eq!(cmds[1].program, "x86_64-linux-gnu-g++");
}

#[test]
fn static_lib_link_is_a_no_op_success() {
    let gcc = GccCompiler::new(Target::new(TargetArch::X64, Platform::Linux));
    let p = project("alpha", ProjectType::StaticLib);
    let objects = vec!["/r/output/alpha/main.o".to_string()];
    assert!(gcc.link_project(&p, "/r", &objects).is_none());
}

#[test]
fn link_plans_objects_then_artifact() {
    let gcc = GccCompiler::new(Target::new(TargetArch::X64, Platform::Linux));
    let p = project("alpha", ProjectType::Executable);
    let objects = vec!["/r/output/alpha/a.o".to_string(), "/r/output/alpha/b.o".to_string()];
    let cmd = gcc.link_project(&p, "/r", &objects).unwrap();
    assert_eq!(cmd.program, "x86_64-linux-gnu-gcc");
    assert_eq!(
        cmd.args,
        vec![
            "/r/output/alpha/a.o".to_string(),
            "/r/output/alpha/b.o".to_string(),
            "-o".to_string(),
            "/r/output/alpha/alpha".to_string(),
        ]
    );
}

#[test]
fn link_with_no_objects_still_plans_a_command() {
    let gcc = GccCompiler::new(Target::new(TargetArch::X64, Platform::Linux));
    let p = project("alpha", ProjectType::DynamicLib);
    let cmd = gcc.link_project(&p, "/r", &vec![]).unwrap();
    assert_eq!(cmd.args, vec!["-o".to_string(), "/r/output/alpha/alpha".to_string()]);
}

#[test]
fn windows_targets_use_a_distinct_linker_binary() {
    let gcc = GccCompiler::new(Target::new(TargetArch::X64, Platform::Win));
    let p = project("alpha", ProjectType::Executable);
    let cmd = gcc.link_project(&p, "/r", &vec![]).unwrap();
    assert_eq!(cmd.program, "x86_64-w64-mingw32-ld");
}

#[test]
fn object_files_are_selected_by_extension_and_joined() {
    let files = vec![
        "a.o".to_string(),
        "b.c".to_string(),
        "sub/c.O".to_string(),
        ".o".to_string(),
        "noext".to_string(),
    ];
    let base = "/r/output/alpha".to_string();
    assert_eq!(
        find_object_files(&files, &base),
        vec!["/r/output/alpha/a.o".to_string(), "/r/output/alpha/sub/c.O".to_string()]
    );
}

#[test]
fn a_build_run_walks_the_project_states_in_order() {
    let mut s = BuildState::Unbuilt;
    s = advance(s, BuildEvent::StartCompile);
    assert_eq!(s, BuildState::Compiling);
    s = advance(s, BuildEvent::CompileDone);
    assert_eq!(s, BuildState::Compiled);
    s = advance(s, BuildEvent::StartLink);
    assert_eq!(s, BuildState::Linking);
    s = advance(s, BuildEvent::LinkDone);
    assert_eq!(s, BuildState::Linked);
}

#[test]
fn failures_while_compiling_or_linking_are_terminal() {
    let failed = advance(BuildState::Compiling, BuildEvent::Failure);
    assert_eq!(failed, BuildState::Failed);
    assert_eq!(advance(BuildState::Linking, BuildEvent::Failure), BuildState::Failed);
    assert_eq!(advance(failed, BuildEvent::StartCompile), BuildState::Failed);
    assert_eq!(advance(BuildState::Linked, BuildEvent::Failure), BuildState::Linked);
}

#[test]
fn the_platform_selects_the_backend() {
    assert!(matches!(select_backend(Platform::Win), Compilers::MSVC));
    assert!(matches!(select_backend(Platform::Linux), Compilers::GCC));
    assert!(matches!(select_backend(Platform::Macos), Compilers::GCC));
    assert!(matches!(select_backend(Platform::Unknown), Compilers::GCC));
}

#[test]
fn msvc_backend_is_an_accepting_stub() {
    assert!(msvc::compile("main.c").is_ok());
    assert!(msvc::link(&vec!["a.o".to_string()]).is_ok());
    assert!(msvc::build_project(&project("alpha", ProjectType::Executable)).is_ok());
}
