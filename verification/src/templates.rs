//! The fixed text templates that generated files are rendered from. Each
//! template is kept as the pieces between its substitution points, so that a
//! rendering's contract can state the exact result as a concatenation.

use vstd::prelude::*;

verus! {

// The build description for a binary package:
//
//   cmake_minimum_required(VERSION 3.20)
//   project(<name> C)
//   add_executable(<name>
//   <one source file per line>
//   )
//   target_include_directories(<name> PRIVATE
//   <one directory per line>
//   )
//
pub const CMAKE_HEAD: &'static str = "cmake_minimum_required(VERSION 3.20)\nproject(";
pub const CMAKE_PROJECT_TAIL: &'static str = " C)\nadd_executable(";
pub const CMAKE_LIST_OPEN: &'static str = "\n";
pub const CMAKE_LIST_CLOSE: &'static str = "\n)\ntarget_include_directories(";
pub const CMAKE_DIRS_OPEN: &'static str = " PRIVATE\n";
pub const CMAKE_DIRS_CLOSE: &'static str = "\n)\n";

// The manifest written into a fresh binary package, around its name.
pub const MANIFEST_HEAD: &'static str = "[package]\nname = \"";
pub const MANIFEST_BIN_TAIL: &'static str = "\"\nversion = \"0.1.0\"\nedition = \"2025.1\"\n";

// The manifest written into a fresh library package.
pub const MANIFEST_LIB_TAIL: &'static str =
    "\"\nversion = \"0.1.0\"\nedition = \"2025.1\"\ntype = \"lib\"\n";

} // verus!
