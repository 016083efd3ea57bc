//! The alternate MSVC backend. It is not implemented: every operation is
//! a stub that reports success without planning or doing any work, so a
//! build driven through it compiles and links nothing.

use vstd::prelude::*;
use crate::solution::Project;

verus! {

/// Stub compilation of one file: succeeds without doing anything.
pub fn compile(_path: &str) -> (r: Result<(), &'static str>)
    ensures
        r is Ok,
{
    Ok(())
}

/// Stub link over a set of object files: succeeds without doing anything.
pub fn link(_files: &Vec<String>) -> (r: Result<(), &'static str>)
    ensures
        r is Ok,
{
    Ok(())
}

/// Stub whole-project build: accepts every project and does no work.
pub fn build_project(_project: &Project) -> (r: Result<(), &'static str>)
    ensures
        r is Ok,
{
    Ok(())
}

} // verus!
