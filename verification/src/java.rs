//! Java runtimes the game runs on.

use vstd::prelude::*;

verus! {

/// A Java runtime: its executable's path (as text) and its version.
#[derive(Debug, Clone)]
pub struct JavaRuntime {
    pub path: String,
    pub version: String,
}

/// Why no Java runtime could be had.
#[derive(Debug, Clone, Copy, PartialEq, Eq, Structural)]
pub enum JavaError {
    NoCompatibleRuntime,
    DownloadFailed,
}

} // verus!
