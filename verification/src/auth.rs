//! Microsoft/Mojang accounts.

use vstd::prelude::*;

verus! {

/// A signed-in Minecraft account.
#[derive(Debug)]
pub struct Account {
    pub username: String,
    pub uuid: String,
    pub access_token: String,
}

/// Why signing in or refreshing a session failed.
#[derive(Debug, Clone, Copy, PartialEq, Eq, Structural)]
pub enum AuthError {
    DeviceCodeExpired,
    NetworkError,
    NotEntitled,
}

} // verus!
