//! Backend of a small Minecraft launcher: mod references and their resolution
//! into a dependency-closed set, release selection from Modrinth and
//! CurseForge listings, download verification by SHA-1, and the text helpers
//! the launcher window uses.

pub mod auth;
pub mod config;
pub mod console;
pub mod curseforge;
pub mod digest;
pub mod http;
pub mod installer;
pub mod instance;
pub mod java;
pub mod launch;
pub mod modrinth;
pub mod mods;
pub mod mojang;
pub mod releases;
pub mod resolver;
pub mod text;
