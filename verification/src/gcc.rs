//! The gcc-family backend: plans driver invocations for a bound target.
//!
//! A backend instance is bound to one (architecture, platform) target and
//! derives its driver binaries from the target triple; on the Windows
//! platform a linker binary distinct from the compiler driver is used.
//! Sources with a C++ extension go to the C++ driver, `c` files to the C
//! driver, and any other extension is an unsupported, skipped file.

use vstd::prelude::*;
use vstd::string::StrSliceExecFns;
use vstd::string::StringExecFns;
use crate::common::{Command, CommandModel, Compiler};
use crate::file_tools::{
    extension_bounds, extension_of, has_extension, join_path, joined_path, with_object_ext,
    with_object_extension,
};
use crate::solution::{Platform, Project, ProjectType};
use crate::target::{arch_is_32bit, triple_of, Target};

verus! {

/// The language a source file's extension selects.
#[derive(Clone, Copy, PartialEq, Eq, Structural, Debug)]
pub enum SourceLang {
    C,
    Cxx,
    Unsupported,
}

/// Case-insensitive match of `a` against the lower-case letter `l`.
pub open spec fn letter_ic(a: char, l: char) -> bool {
    a == l || a as u32 + 32 == l as u32
}

/// The C++ source extensions, compared case-insensitively.
pub open spec fn is_cxx_ext(e: Seq<char>) -> bool {
    ||| (e.len() == 3 && letter_ic(e[0], 'c') && letter_ic(e[1], 'p') && letter_ic(e[2], 'p'))
    ||| (e.len() == 2 && letter_ic(e[0], 'c') && letter_ic(e[1], 'c'))
    ||| (e.len() == 3 && letter_ic(e[0], 'c') && letter_ic(e[1], 'x') && letter_ic(e[2], 'x'))
}

/// The C source extension, compared case-insensitively.
pub open spec fn is_c_ext(e: Seq<char>) -> bool {
    e.len() == 1 && letter_ic(e[0], 'c')
}

/// What a file's extension says about how to compile it.
pub open spec fn source_lang(p: Seq<char>) -> SourceLang {
    if has_extension(p) {
        if is_cxx_ext(extension_of(p)) {
            SourceLang::Cxx
        } else if is_c_ext(extension_of(p)) {
            SourceLang::C
        } else {
            SourceLang::Unsupported
        }
    } else {
        SourceLang::Unsupported
    }
}

/// The C driver binary of a target, selected by its triple.
pub open spec fn c_driver_of(t: Target) -> Seq<char> {
    triple_of(t) + "-gcc"@
}

/// The C++ driver binary of a target.
pub open spec fn cxx_driver_of(t: Target) -> Seq<char> {
    triple_of(t) + "-g++"@
}

/// The link driver of a target: on the Windows platform a separate
/// linker binary, elsewhere the C driver itself.
pub open spec fn linker_of(t: Target) -> Seq<char> {
    if t.platform == Platform::Win {
        triple_of(t) + "-ld"@
    } else {
        triple_of(t) + "-gcc"@
    }
}

/// One include flag per extra include directory.
pub open spec fn include_flags(dirs: Seq<Seq<char>>) -> Seq<Seq<char>> {
    dirs.map_values(|d: Seq<char>| "-I"@ + d)
}

/// The 32-bit-mode flag, present exactly for 32-bit architectures.
pub open spec fn arch_flags(t: Target) -> Seq<Seq<char>> {
    if arch_is_32bit(t.arch) {
        seq!["-m32"@]
    } else {
        Seq::<Seq<char>>::empty()
    }
}

/// The argument list of one compilation: the input under `source_dir`,
/// the object output under `output_dir` with the extension replaced, the
/// include flags, and the architecture flags.
pub open spec fn compile_args(
    t: Target,
    source_dir: Seq<char>,
    output_dir: Seq<char>,
    rel_file: Seq<char>,
    extra_includes: Seq<Seq<char>>,
) -> Seq<Seq<char>> {
    seq![
        "-c"@,
        joined_path(source_dir, rel_file),
        "-o"@,
        joined_path(output_dir, with_object_ext(rel_file)),
    ] + include_flags(extra_includes) + arch_flags(t)
}

/// The compile commands of a file listing, in order, skipping files of
/// unsupported extension.
pub open spec fn gcc_project_cmds(
    g: GccCompiler,
    source_dir: Seq<char>,
    output_dir: Seq<char>,
    include_dirs: Seq<Seq<char>>,
    files: Seq<Seq<char>>,
) -> Seq<CommandModel>
    decreases files.len(),
{
    if files.len() == 0 {
        Seq::<CommandModel>::empty()
    } else {
        let rest = gcc_project_cmds(g, source_dir, output_dir, include_dirs, files.drop_last());
        match g.compile_file_spec(source_dir, output_dir, files.last(), include_dirs) {
            Some(c) => rest.push(c),
            None => rest,
        }
    }
}

/// Reads the driver-selecting language of a source file off its extension.
pub fn source_lang_of(p: &str) -> (r: SourceLang)
    ensures
        r == source_lang(p@),
{
    let n: usize = p.unicode_len();
    let (_start, ld) = extension_bounds(p);
    match ld {
        None => SourceLang::Unsupported,
        Some(d) => {
            let ghost e = extension_of(p@);
            proof {
                assert(e =~= p@.skip(d + 1));
            }
            if n - d - 1 == 1 {
                let c0 = p.get_char(d + 1);
                proof {
                    assert(e[0] == p@[d + 1]);
                }
                if c0 == 'c' || c0 == 'C' {
                    SourceLang::C
                } else {
                    SourceLang::Unsupported
                }
            } else if n - d - 1 == 2 {
                let c0 = p.get_char(d + 1);
                let c1 = p.get_char(d + 2);
                proof {
                    assert(e[0] == p@[d + 1] && e[1] == p@[d + 2]);
                }
                if (c0 == 'c' || c0 == 'C') && (c1 == 'c' || c1 == 'C') {
                    SourceLang::Cxx
                } else {
                    SourceLang::Unsupported
                }
            } else if n - d - 1 == 3 {
                let c0 = p.get_char(d + 1);
                let c1 = p.get_char(d + 2);
                let c2 = p.get_char(d + 3);
                proof {
                    assert(e[0] == p@[d + 1] && e[1] == p@[d + 2] && e[2] == p@[d + 3]);
                }
                let first_c = c0 == 'c' || c0 == 'C';
                let cpp = first_c && (c1 == 'p' || c1 == 'P') && (c2 == 'p' || c2 == 'P');
                let cxx = first_c && (c1 == 'x' || c1 == 'X') && (c2 == 'x' || c2 == 'X');
                if cpp || cxx {
                    SourceLang::Cxx
                } else {
                    SourceLang::Unsupported
                }
            } else {
                SourceLang::Unsupported
            }
        },
    }
}

/// The gcc-family backend, bound to one target.
#[derive(Clone, Copy, Debug)]
pub struct GccCompiler {
    pub target: Target,
}

impl GccCompiler {
    pub fn new(target: Target) -> (g: GccCompiler)
        ensures
            g.target == target,
    {
        GccCompiler { target }
    }

    /// The C driver binary this backend invokes.
    pub fn c_driver(&self) -> (r: String)
        ensures
            r@ == c_driver_of(self.target),
    {
        self.target.triple().concat("-gcc")
    }

    /// The C++ driver binary this backend invokes.
    pub fn cxx_driver(&self) -> (r: String)
        ensures
            r@ == cxx_driver_of(self.target),
    {
        self.target.triple().concat("-g++")
    }

    /// The link driver this backend invokes.
    pub fn linker(&self) -> (r: String)
        ensures
            r@ == linker_of(self.target),
    {
        match self.target.platform {
            Platform::Win => self.target.triple().concat("-ld"),
            _ => self.target.triple().concat("-gcc"),
        }
    }
}

impl Compiler for GccCompiler {
    open spec fn compile_file_spec(
        &self,
        source_dir: Seq<char>,
        output_dir: Seq<char>,
        rel_file: Seq<char>,
        extra_includes: Seq<Seq<char>>,
    ) -> Option<CommandModel> {
        match source_lang(rel_file) {
            SourceLang::Cxx => Some(
                (
                    cxx_driver_of(self.target),
                    compile_args(self.target, source_dir, output_dir, rel_file, extra_includes),
                ),
            ),
            SourceLang::C => Some(
                (
                    c_driver_of(self.target),
                    compile_args(self.target, source_dir, output_dir, rel_file, extra_includes),
                ),
            ),
            SourceLang::Unsupported => None,
        }
    }

    fn compile_file(
        &self,
        source_dir: &str,
        output_dir: &str,
        rel_file: &str,
        extra_includes: &Vec<String>,
    ) -> (r: Option<Command>) {
        let lang = source_lang_of(rel_file);
        match lang {
            SourceLang::Unsupported => None,
            _ => {
                let mut args: Vec<String> = Vec::new();
                args.push(String::from_str("-c"));
                args.push(join_path(source_dir, rel_file));
                args.push(String::from_str("-o"));
                let obj = with_object_extension(rel_file);
                args.push(join_path(output_dir, obj.as_str()));
                let ghost base = seq![
                    "-c"@,
                    joined_path(source_dir@, rel_file@),
                    "-o"@,
                    joined_path(output_dir@, with_object_ext(rel_file@)),
                ];
                proof {
                    assert(args.deep_view() =~= base);
                }
                let mut i: usize = 0;
                let n = extra_includes.len();
                while i < n
                    invariant
                        i <= n,
                        n == extra_includes@.len(),
                        args.deep_view() =~= base + include_flags(
                            extra_includes.deep_view().take(i as int),
                        ),
                    decreases n - i,
                {
                    let flag = String::from_str("-I").concat(extra_includes[i].as_str());
                    let ghost gflag = flag;
                    let ghost prev = args;
                    args.push(flag);
                    proof {
                        crate::common::lemma_push_deep_view(prev, args, gflag);
                        assert(include_flags(extra_includes.deep_view().take(i + 1)) =~= include_flags(
                            extra_includes.deep_view().take(i as int),
                        ).push("-I"@ + extra_includes@[i as int]@));
                        assert(args.deep_view() =~= base + include_flags(
                            extra_includes.deep_view().take(i + 1),
                        ));
                    }
                    i = i + 1;
                }
                proof {
                    assert(extra_includes.deep_view().take(n as int) =~= extra_includes.deep_view());
                }
                if self.target.is_32bit() {
                    args.push(String::from_str("-m32"));
                }
                proof {
                    assert(args.deep_view() =~= compile_args(
                        self.target,
                        source_dir@,
                        output_dir@,
                        rel_file@,
                        extra_includes.deep_view(),
                    ));
                }
                let program = match lang {
                    SourceLang::Cxx => self.cxx_driver(),
                    _ => self.c_driver(),
                };
                Some(Command { program, args })
            },
        }
    }

    open spec fn compile_project_spec(
        &self,
        project: Project,
        solution_root: Seq<char>,
        files: Seq<Seq<char>>,
        include_dirs: Seq<Seq<char>>,
    ) -> Seq<CommandModel> {
        gcc_project_cmds(
            *self,
            joined_path(solution_root, project.path@),
            joined_path(joined_path(solution_root, "output"@), project.path@),
            include_dirs,
            files,
        )
    }

    fn compile_project(
        &self,
        project: &Project,
        solution_root: &str,
        files: &Vec<String>,
        include_dirs: &Vec<String>,
    ) -> (r: Vec<Command>) {
        let source_dir = join_path(solution_root, project.path.as_str());
        let out_base = join_path(solution_root, "output");
        let output_dir = join_path(out_base.as_str(), project.path.as_str());
        let mut cmds: Vec<Command> = Vec::new();
        let mut i: usize = 0;
        let n = files.len();
        while i < n
            invariant
                i <= n,
                n == files@.len(),
                source_dir@ == joined_path(solution_root@, project.path@),
                output_dir@ == joined_path(
                    joined_path(solution_root@, "output"@),
                    project.path@,
                ),
                cmds@.map_values(|c: Command| c@) =~= gcc_project_cmds(
                    *self,
                    source_dir@,
                    output_dir@,
                    include_dirs.deep_view(),
                    files.deep_view().take(i as int),
                ),
            decreases n - i,
        {
            proof {
                assert(files.deep_view().take(i + 1).drop_last() =~= files.deep_view().take(
                    i as int,
                ));
                assert(files.deep_view().take(i + 1).last() == files@[i as int]@);
            }
            match self.compile_file(
                source_dir.as_str(),
                output_dir.as_str(),
                files[i].as_str(),
                include_dirs,
            ) {
                Some(c) => {
                    cmds.push(c);
                    proof {
                        assert(cmds@.map_values(|c: Command| c@) =~= gcc_project_cmds(
                            *self,
                            source_dir@,
                            output_dir@,
                            include_dirs.deep_view(),
                            files.deep_view().take(i + 1),
                        ));
                    }
                },
                None => {
                    proof {
                        assert(cmds@.map_values(|c: Command| c@) =~= gcc_project_cmds(
                            *self,
                            source_dir@,
                            output_dir@,
                            include_dirs.deep_view(),
                            files.deep_view().take(i + 1),
                        ));
                    }
                },
            }
            i = i + 1;
        }
        proof {
            assert(files.deep_view().take(n as int) =~= files.deep_view());
        }
        cmds
    }

    open spec fn link_project_spec(
        &self,
        project: Project,
        solution_root: Seq<char>,
        objects: Seq<Seq<char>>,
    ) -> CommandModel {
        (
            linker_of(self.target),
            objects + seq![
                "-o"@,
                joined_path(
                    joined_path(joined_path(solution_root, "output"@), project.path@),
                    project.name@,
                ),
            ],
        )
    }

    fn link_project(&self, project: &Project, solution_root: &str, objects: &Vec<String>) -> (r:
        Option<Command>) {
        match project.project_type {
            ProjectType::StaticLib => None,
            _ => {
                let mut args: Vec<String> = Vec::new();
                let mut i: usize = 0;
                let n = objects.len();
                while i < n
                    invariant
                        i <= n,
                        n == objects@.len(),
                        args.deep_view() =~= objects.deep_view().take(i as int),
                    decreases n - i,
                {
                    let obj = objects[i].clone();
                    let ghost gobj = obj;
                    let ghost prev = args;
                    args.push(obj);
                    proof {
                        crate::common::lemma_push_deep_view(prev, args, gobj);
                        assert(args.deep_view() =~= objects.deep_view().take(i + 1));
                    }
                    i = i + 1;
                }
                proof {
                    assert(objects.deep_view().take(n as int) =~= objects.deep_view());
                }
                args.push(String::from_str("-o"));
                let out_base = join_path(solution_root, "output");
                let out_dir = join_path(out_base.as_str(), project.path.as_str());
                args.push(join_path(out_dir.as_str(), project.name.as_str()));
                proof {
                    assert(args.deep_view() =~= objects.deep_view() + seq![
                        "-o"@,
                        joined_path(
                            joined_path(
                                joined_path(solution_root@, "output"@),
                                project.path@,
                            ),
                            project.name@,
                        ),
                    ]);
                }
                Some(Command { program: self.linker(), args })
            },
        }
    }
}

} // verus!
