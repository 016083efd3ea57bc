//! The target a build run is bound to: an (architecture, platform) pair,
//! the canonical triple it derives, and the check that a project declares
//! support for it.

use vstd::prelude::*;
use vstd::string::StringExecFns;
use crate::solution::{Platform, Project, TargetArch};

verus! {

/// The compiler backends a target can be driven by.
#[derive(Clone, Copy, PartialEq, Eq, Structural, Debug)]
pub enum Compilers {
    GCC,
    MSVC,
}

/// The kind of artifact a target produces.
#[derive(Clone, Copy, PartialEq, Eq, Structural, Debug)]
pub enum TargetType {
    StaticLib,
    DynamicLib,
    Executable,
}

/// An (architecture, platform) pair that a backend is bound to and that
/// gates which projects may be built.
#[derive(Clone, Copy, PartialEq, Eq, Structural, Debug)]
pub struct Target {
    pub arch: TargetArch,
    pub platform: Platform,
}

/// The canonical triple token of an architecture.
pub open spec fn arch_token(a: TargetArch) -> Seq<char> {
    match a {
        TargetArch::X86 => "i686"@,
        TargetArch::X64 => "x86_64"@,
        TargetArch::ARM => "arm"@,
        TargetArch::ARM64 => "aarch64"@,
        TargetArch::RISCV64 => "riscv64"@,
    }
}

/// The canonical triple suffix of a platform.
pub open spec fn platform_suffix(p: Platform) -> Seq<char> {
    match p {
        Platform::Win => "w64-mingw32"@,
        Platform::Linux => "linux-gnu"@,
        Platform::Macos => "apple-darwin"@,
        Platform::Unknown => "unknown-elf"@,
    }
}

/// The target triple: the architecture token and the platform suffix.
pub open spec fn triple_of(t: Target) -> Seq<char> {
    arch_token(t.arch) + "-"@ + platform_suffix(t.platform)
}

/// Whether an architecture runs in 32-bit mode, so that compilations for
/// it carry the 32-bit-mode flag.
pub open spec fn arch_is_32bit(a: TargetArch) -> bool {
    a == TargetArch::X86 || a == TargetArch::ARM
}

/// Whether a project declares support for the target's architecture and
/// platform.
pub open spec fn target_supported(p: Project, t: Target) -> bool {
    p.target_archs@.contains(t.arch) && p.target_platforms@.contains(t.platform)
}

/// The backend variant a platform selects at startup: the MSVC stub on
/// the Windows platform, the gcc family everywhere else.
pub open spec fn backend_for(p: Platform) -> Compilers {
    if p == Platform::Win {
        Compilers::MSVC
    } else {
        Compilers::GCC
    }
}

/// Selects the compiler backend for a platform.
pub fn select_backend(platform: Platform) -> (r: Compilers)
    ensures
        r == backend_for(platform),
{
    match platform {
        Platform::Win => Compilers::MSVC,
        _ => Compilers::GCC,
    }
}

impl Target {
    pub fn new(arch: TargetArch, platform: Platform) -> (t: Target)
        ensures
            t.arch == arch,
            t.platform == platform,
    {
        Target { arch, platform }
    }

    /// The canonical triple token of this target's architecture.
    pub fn arch_token(&self) -> (r: &'static str)
        ensures
            r@ == arch_token(self.arch),
    {
        match self.arch {
            TargetArch::X86 => "i686",
            TargetArch::X64 => "x86_64",
            TargetArch::ARM => "arm",
            TargetArch::ARM64 => "aarch64",
            TargetArch::RISCV64 => "riscv64",
        }
    }

    /// The canonical triple suffix of this target's platform.
    pub fn platform_suffix(&self) -> (r: &'static str)
        ensures
            r@ == platform_suffix(self.platform),
    {
        match self.platform {
            Platform::Win => "w64-mingw32",
            Platform::Linux => "linux-gnu",
            Platform::Macos => "apple-darwin",
            Platform::Unknown => "unknown-elf",
        }
    }

    /// The triple string used to select cross-compiling driver binaries.
    pub fn triple(&self) -> (r: String)
        ensures
            r@ == triple_of(*self),
    {
        String::from_str(self.arch_token()).concat("-").concat(self.platform_suffix())
    }

    /// Whether this target's architecture runs in 32-bit mode.
    pub fn is_32bit(&self) -> (r: bool)
        ensures
            r == arch_is_32bit(self.arch),
    {
        match self.arch {
            TargetArch::X86 => true,
            TargetArch::ARM => true,
            _ => false,
        }
    }

    /// Whether `project` declares support for this target; a mismatch must
    /// fail the whole build before any compilation starts.
    pub fn supports(&self, project: &Project) -> (r: bool)
        ensures
            r == target_supported(*project, *self),
    {
        let mut arch_ok: bool = false;
        let mut i: usize = 0;
        let n = project.target_archs.len();
        while i < n
            invariant
                i <= n,
                n == project.target_archs@.len(),
                arch_ok == exists|k: int| 0 <= k < i && project.target_archs@[k] == self.arch,
            decreases n - i,
        {
            if project.target_archs[i] == self.arch {
                arch_ok = true;
                proof {
                    assert(project.target_archs@[i as int] == self.arch);
                }
            }
            i = i + 1;
        }
        let mut plat_ok: bool = false;
        let mut j: usize = 0;
        let m = project.target_platforms.len();
        while j < m
            invariant
                j <= m,
                m == project.target_platforms@.len(),
                plat_ok == exists|k: int| 0 <= k < j && project.target_platforms@[k]
                    == self.platform,
            decreases m - j,
        {
            if project.target_platforms[j] == self.platform {
                plat_ok = true;
                proof {
                    assert(project.target_platforms@[j as int] == self.platform);
                }
            }
            j = j + 1;
        }
        arch_ok && plat_ok
    }
}

} // verus!
