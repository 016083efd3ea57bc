//! The core of a cross-platform native build tool that compiles and links
//! multi-project solutions described by a declarative configuration.
//!
//! The library decides what to build, in what order and with which
//! inputs, and whether the configuration graph is valid at all: the
//! version-constraint engine, the dependency resolver (cycle detection,
//! transitive build order, include- and link-path derivation), the
//! compiler-backend contract, and the orchestrator that plans a whole
//! solution build. Every operation here is a pure, verified plan over
//! plain values; reading configuration, walking the filesystem and
//! spawning the planned commands belong to the surrounding program.

pub mod common;
pub mod dependency_resolver;
pub mod file_tools;
pub mod gcc;
pub mod msvc;
pub mod orchestrator;
pub mod solution;
pub mod target;
pub mod version_tools;
