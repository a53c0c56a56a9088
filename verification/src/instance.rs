//! Game instances: per-install settings, mods directory, saves.

use vstd::prelude::*;
use crate::java::JavaRuntime;
use crate::mods::ModLoader;

verus! {

/// One installed game profile. Its directory is kept as text.
#[derive(Debug, Clone)]
pub struct Instance {
    pub name: String,
    pub version_id: String,
    pub dir: String,
    /// UUID of the account this instance launches as. Each instance picks
    /// its own account rather than sharing one global sign-in.
    pub account_uuid: String,
    /// Java runtime this instance launches with, managed by the launcher.
    pub java: JavaRuntime,
    /// The mod loader, or `None` for a vanilla instance (which takes no mods).
    pub mod_loader: Option<ModLoader>,
}

/// Why an instance could not be created or removed.
#[derive(Debug, Clone, Copy, PartialEq, Eq, Structural)]
pub enum InstanceError {
    AlreadyExists,
    NotFound,
    IoError,
}

} // verus!
