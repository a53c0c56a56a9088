//! Launcher settings: install directories, JVM/memory arguments and user
//! preferences.

use vstd::prelude::*;

verus! {

/// The launcher's settings. Paths are kept as text.
#[derive(Debug)]
pub struct LauncherConfig {
    pub game_dir: String,
    pub java_path: Option<String>,
    pub jvm_args: Vec<String>,
    pub max_memory_mb: u32,
    /// CurseForge requires a per-application API key (console.curseforge.com);
    /// there is no way around this. Read from `WML_CURSEFORGE_API_KEY` if set.
    pub curseforge_api_key: Option<String>,
}

} // verus!
