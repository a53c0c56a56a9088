//! Mod loaders, references to mods on a provider, resolved releases and the
//! errors of resolving and installing them.

use vstd::prelude::*;
use vstd::std_specs::cmp::PartialEqSpecImpl;
use crate::curseforge::CurseForgeError;
use crate::modrinth::ModrinthError;

verus! {

/// The mod loader an instance runs.
#[derive(Debug, Clone, Copy, PartialEq, Eq, Hash, Structural)]
pub enum ModLoader {
    Fabric,
    Forge,
    Quilt,
    NeoForge,
}

/// Modrinth's loader id for `loader`.
pub open spec fn modrinth_loader_id(loader: ModLoader) -> Seq<char> {
    match loader {
        ModLoader::Fabric => "fabric"@,
        ModLoader::Forge => "forge"@,
        ModLoader::Quilt => "quilt"@,
        ModLoader::NeoForge => "neoforge"@,
    }
}

/// CurseForge's numeric `modLoaderType` for `loader`.
pub open spec fn curseforge_loader_id(loader: ModLoader) -> u8 {
    match loader {
        ModLoader::Forge => 1,
        ModLoader::Fabric => 4,
        ModLoader::Quilt => 5,
        ModLoader::NeoForge => 6,
    }
}

impl ModLoader {
    /// Modrinth's lowercase loader id, as used in its `loaders` filter.
    pub fn modrinth_id(self) -> (res: &'static str)
        ensures
            res@ == modrinth_loader_id(self),
    {
        match self {
            ModLoader::Fabric => {
                proof {
                    reveal_strlit("fabric");
                }
                "fabric"
            },
            ModLoader::Forge => {
                proof {
                    reveal_strlit("forge");
                }
                "forge"
            },
            ModLoader::Quilt => {
                proof {
                    reveal_strlit("quilt");
                }
                "quilt"
            },
            ModLoader::NeoForge => {
                proof {
                    reveal_strlit("neoforge");
                }
                "neoforge"
            },
        }
    }

    /// CurseForge's numeric `modLoaderType` id.
    pub fn curseforge_id(self) -> (res: u8)
        ensures
            res == curseforge_loader_id(self),
    {
        match self {
            ModLoader::Forge => 1,
            ModLoader::Fabric => 4,
            ModLoader::Quilt => 5,
            ModLoader::NeoForge => 6,
        }
    }
}

/// Where a mod is published.
#[derive(Debug, Clone, Copy, PartialEq, Eq, Hash, Structural)]
pub enum Provider {
    Modrinth,
    CurseForge,
}

/// A mod on a provider: a Modrinth project id or slug, or a CurseForge mod id
/// written in decimal.
#[derive(Debug, Hash)]
pub struct ModReference {
    pub provider: Provider,
    pub project_id: String,
}

impl View for ModReference {
    type V = (Provider, Seq<char>);

    open spec fn view(&self) -> (Provider, Seq<char>) {
        (self.provider, self.project_id@)
    }
}

impl Clone for ModReference {
    fn clone(&self) -> (res: Self)
        ensures
            res@ == self@,
    {
        ModReference { provider: self.provider, project_id: self.project_id.clone() }
    }
}

impl PartialEq for ModReference {
    fn eq(&self, other: &Self) -> (res: bool) {
        self.provider == other.provider && self.project_id == other.project_id
    }
}

impl Eq for ModReference {

}

impl PartialEqSpecImpl for ModReference {
    open spec fn obeys_eq_spec() -> bool {
        true
    }

    open spec fn eq_spec(&self, other: &ModReference) -> bool {
        self@ == other@
    }
}

impl ModReference {
    /// A reference to the Modrinth project `project_id`.
    pub fn modrinth(project_id: &str) -> (res: Self)
        ensures
            res@ == (Provider::Modrinth, project_id@),
    {
        ModReference { provider: Provider::Modrinth, project_id: project_id.to_owned() }
    }

    /// A reference to the CurseForge mod `mod_id`, its id written in decimal.
    pub fn curseforge(mod_id: u32) -> (res: Self)
        ensures
            res@ == (Provider::CurseForge, crate::text::decimal(mod_id as nat)),
    {
        ModReference { provider: Provider::CurseForge, project_id: crate::text::decimal_string(mod_id as u64) }
    }
}

/// A mod pinned to one release: the file to download and the mods it
/// requires.
#[derive(Debug)]
pub struct ResolvedMod {
    pub reference: ModReference,
    pub version_id: String,
    pub filename: String,
    pub download_url: String,
    /// The SHA-1 the provider published for the file, in lower-case hex.
    pub sha1: Option<String>,
    /// The mods this release requires (optional, incompatible and embedded
    /// dependencies are not listed).
    pub dependencies: Vec<ModReference>,
}

/// The references of `refs`.
pub open spec fn ref_views(refs: Seq<ModReference>) -> Seq<(Provider, Seq<char>)> {
    refs.map_values(|r: ModReference| r@)
}

/// Appending a reference appends its view.
pub proof fn lemma_ref_views_push(refs: Seq<ModReference>, r: ModReference)
    ensures
        ref_views(refs.push(r)) == ref_views(refs).push(r@),
{
    assert(ref_views(refs.push(r)) =~= ref_views(refs).push(r@));
}

/// Modrinth references to the projects `ids`.
pub open spec fn modrinth_refs(ids: Seq<Seq<char>>) -> Seq<(Provider, Seq<char>)> {
    ids.map_values(|p: Seq<char>| (Provider::Modrinth, p))
}

/// CurseForge references to the mods `ids`, written in decimal.
pub open spec fn curseforge_refs(ids: Seq<u32>) -> Seq<(Provider, Seq<char>)> {
    ids.map_values(|id: u32| (Provider::CurseForge, crate::text::decimal(id as nat)))
}

/// The texts of `texts`.
pub open spec fn text_views(texts: Seq<String>) -> Seq<Seq<char>> {
    texts.map_values(|t: String| t@)
}

/// The references a resolved mod requires.
pub open spec fn dependency_views(m: ResolvedMod) -> Seq<(Provider, Seq<char>)> {
    ref_views(m.dependencies@)
}

/// Why resolving or installing mods failed.
#[derive(Debug)]
pub enum ModError {
    Modrinth(ModrinthError),
    CurseForge(CurseForgeError),
    /// A CurseForge reference whose id is not a decimal `u32`.
    InvalidCurseForgeId(String),
    /// A CurseForge mod is needed but no CurseForge client is configured.
    CurseForgeNotConfigured(ModReference),
    /// The instance has no mod loader, so mods cannot be installed on it.
    VanillaInstance,
    /// A download failed; the text says why.
    Http(String),
    /// Reading or writing a file failed; the text says why.
    Io(String),
    /// The downloaded file (named here) does not match its published hash.
    HashMismatch(String),
}

} // verus!
