//! Package manager and build orchestrator for native C projects.
//!
//! The library models a project manifest (`Tailor.toml`), resolves the
//! project's dependency set, generates a CMake build description, and decides
//! when that description must be regenerated, based on content hashes kept in
//! a per-build-directory state record.

pub mod cmake;
pub mod cmds;
pub mod dependency_manager;
pub mod document;
pub mod hashing;
pub mod manifest;
pub mod manifest_metadata;
pub mod new_pkg;
pub mod templates;
pub mod text;

use vstd::prelude::*;

verus! {

} // verus!
