//! Version metadata from Mojang's APIs.

use vstd::prelude::*;

verus! {

/// One entry of the version manifest.
#[derive(Debug, Clone)]
pub struct VersionInfo {
    pub id: String,
    pub release_type: String,
    pub url: String,
}

/// What a version needs to run: its main class, libraries and asset index.
#[derive(Debug, Clone)]
pub struct VersionDetails {
    pub main_class: String,
    pub libraries: Vec<String>,
    pub asset_index_url: String,
}

/// Why fetching version metadata failed.
#[derive(Debug, Clone, Copy, PartialEq, Eq, Structural)]
pub enum MojangError {
    NetworkError,
    ParseError,
}

} // verus!
