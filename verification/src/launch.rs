//! What launching the game needs.

use vstd::prelude::*;
use crate::auth::Account;
use crate::instance::Instance;
use crate::java::JavaRuntime;

verus! {

/// The instance to launch, as whom, and on which Java runtime.
pub struct LaunchOptions<'a> {
    pub instance: &'a Instance,
    pub account: &'a Account,
    pub java: &'a JavaRuntime,
}

/// Why the game could not be launched.
#[derive(Debug, Clone, Copy, PartialEq, Eq, Structural)]
pub enum LaunchError {
    MissingAssets,
    ProcessSpawnFailed,
}

} // verus!
