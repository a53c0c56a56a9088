use worst_minecraft_launcher::curseforge::{best_file_of, File, FileDependency, FileHash};
use worst_minecraft_launcher::modrinth::{
    best_version_of, Dependency, DependencyType, FileHashes, Version, VersionFile,
};
use worst_minecraft_launcher::mods::{ModError, ModLoader, ModReference, Provider, ResolvedMod};
use worst_minecraft_launcher::releases::{curseforge_mod_id, curseforge_resolved, plan_modrinth};
use worst_minecraft_launcher::resolver::Resolver;

fn dep(project_id: Option<&str>, version_id: Option<&str>, kind: DependencyType) -> Dependency {
    Dependency {
        project_id: project_id.map(|s| s.to_string()),
        version_id: version_id.map(|s| s.to_string()),
        dependency_type: kind,
    }
}

fn modrinth_version(id: &str, project_id: &str, dependencies: Vec<Dependency>) -> Version {
    Version {
        id: id.to_string(),
        project_id: project_id.to_string(),
        version_number: "1.0".to_string(),
        game_versions: vec!["1.21.4".to_string()],
        loaders: vec!["fabric".to_string()],
        date_published: "2024-06-01T00:00:00Z".to_string(),
        dependencies,
        files: vec![VersionFile {
            url: format!("{id}-url"),
            filename: format!("{id}.jar"),
            primary: true,
            hashes: FileHashes { sha1: None, sha512: None },
        }],
    }
}

/// Stands in for the two providers: Modrinth versions by project, and
/// CurseForge files by mod id.
struct Catalog {
    versions: Vec<Version>,
    files: Vec<File>,
}

impl Catalog {
    fn resolve_one(&self, reference: &ModReference) -> Result<ResolvedMod, ModError> {
        match reference.provider {
            Provider::Modrinth => {
                let candidates: Vec<Version> = self
                    .versions
                    .iter()
                    .filter(|v| v.project_id == reference.project_id)
                    .cloned()
                    .collect();
                let version = best_version_of(candidates, &reference.project_id)
                    .map_err(ModError::Modrinth)?;
                let plan = plan_modrinth(reference, &version)?;
                let found: Vec<String> = plan
                    .lookups()
                    .iter()
                    .map(|vid| {
                        self.versions.iter().find(|v| &v.id == vid).unwrap().project_id.clone()
                    })
                    .collect();
                Ok(plan.finish(found))
            }
            Provider::CurseForge => {
                let mod_id = curseforge_mod_id(reference)?;
                let candidates: Vec<File> =
                    self.files.iter().filter(|f| f.mod_id == mod_id).cloned().collect();
                let file = best_file_of(candidates, mod_id).map_err(ModError::CurseForge)?;
                curseforge_resolved(reference, mod_id, &file)
            }
        }
    }

    fn resolve(
        &self,
        roots: &[ModReference],
        curseforge_configured: bool,
    ) -> Result<Vec<ResolvedMod>, ModError> {
        let mut resolver = Resolver::new(roots);
        loop {
            match resolver.next_step(curseforge_configured)? {
                None => return Ok(resolver.finish()),
                Some(reference) => {
                    let resolved = self.resolve_one(&reference)?;
                    resolver.record(resolved);
                }
            }
        }
    }
}

#[test]
fn resolve_follows_required_deps_and_dedupes_diamonds() {
    // root requires A and B; A also requires B (diamond): B appears once.
    let catalog = Catalog {
        versions: vec![
            modrinth_version(
                "root-v",
                "root",
                vec![
                    dep(Some("a"), None, DependencyType::Required),
                    dep(Some("b"), None, DependencyType::Required),
                    dep(Some("c"), None, DependencyType::Optional),
                ],
            ),
            modrinth_version("a-v", "a", vec![dep(Some("b"), None, DependencyType::Required)]),
            modrinth_version("b-v", "b", vec![]),
            modrinth_version("c-v", "c", vec![]),
        ],
        files: vec![],
    };
    let resolved = catalog.resolve(&[ModReference::modrinth("root")], false).unwrap();
    let ids: Vec<&str> = resolved.iter().map(|m| m.reference.project_id.as_str()).collect();
    assert_eq!(resolved.len(), 3, "expected root, a, b (deduped, c is optional): {ids:?}");
    assert!(ids.contains(&"root"));
    assert!(ids.contains(&"a"));
    assert!(ids.contains(&"b"));
    assert!(!ids.contains(&"c"), "optional dependency should not be followed");
}

#[test]
fn resolve_errors_when_curseforge_is_needed_but_not_configured() {
    let catalog = Catalog { versions: vec![], files: vec![] };
    let err = catalog.resolve(&[ModReference::curseforge(6789)], false).unwrap_err();
    assert!(matches!(err, ModError::CurseForgeNotConfigured(_)));
}

#[test]
fn a_version_only_dependency_resolves_through_its_project() {
    let catalog = Catalog {
        versions: vec![
            modrinth_version("root-v", "root", vec![dep(None, Some("lib-v1"), DependencyType::Required)]),
            modrinth_version("lib-v1", "lib", vec![]),
        ],
        files: vec![],
    };
    let resolved = catalog.resolve(&[ModReference::modrinth("root")], false).unwrap();
    assert_eq!(resolved.len(), 2);
    assert_eq!(resolved[0].dependencies, vec![ModReference::modrinth("lib")]);
    assert_eq!(resolved[1].reference, ModReference::modrinth("lib"));
    assert_eq!(resolved[1].version_id, "lib-v1");
}

#[test]
fn curseforge_mods_resolve_through_required_dependencies() {
    let cf_file = |id: u32, mod_id: u32, deps: Vec<FileDependency>| File {
        id,
        mod_id,
        file_name: format!("{mod_id}.jar"),
        file_date: "2024-01-01T00:00:00.000Z".to_string(),
        download_url: Some(format!("https://example.com/{mod_id}.jar")),
        dependencies: deps,
        hashes: vec![FileHash { value: format!("hash{mod_id}"), algo: 1 }],
    };
    let catalog = Catalog {
        versions: vec![],
        files: vec![
            cf_file(
                1,
                6789,
                vec![
                    FileDependency { mod_id: 111, relation_type: 3 },
                    FileDependency { mod_id: 222, relation_type: 2 },
                ],
            ),
            cf_file(2, 111, vec![FileDependency { mod_id: 6789, relation_type: 3 }]),
            cf_file(3, 222, vec![]),
        ],
    };
    let resolved = catalog.resolve(&[ModReference::curseforge(6789)], true).unwrap();
    let ids: Vec<&str> = resolved.iter().map(|m| m.reference.project_id.as_str()).collect();
    assert_eq!(ids, vec!["6789", "111"]);
    assert_eq!(resolved[0].version_id, "1");
    assert_eq!(resolved[0].sha1.as_deref(), Some("hash6789"));
    assert_eq!(resolved[0].download_url, "https://example.com/6789.jar");
}

#[test]
fn invalid_curseforge_ids_and_missing_download_urls_are_errors() {
    let bad = ModReference { provider: Provider::CurseForge, project_id: "fabric-api".to_string() };
    assert!(matches!(curseforge_mod_id(&bad), Err(ModError::InvalidCurseForgeId(id)) if id == "fabric-api"));
    let file = File {
        id: 5,
        mod_id: 7,
        file_name: "x.jar".to_string(),
        file_date: "2024".to_string(),
        download_url: None,
        dependencies: vec![],
        hashes: vec![],
    };
    let err = curseforge_resolved(&ModReference::curseforge(7), 7, &file).unwrap_err();
    assert!(matches!(
        err,
        ModError::CurseForge(worst_minecraft_launcher::curseforge::CurseForgeError::NoCompatibleFile(7))
    ));
}

#[test]
fn a_version_without_files_is_no_compatible_version() {
    let mut v = modrinth_version("v", "p", vec![]);
    v.files.clear();
    let err = plan_modrinth(&ModReference::modrinth("p"), &v).unwrap_err();
    assert!(matches!(
        err,
        ModError::Modrinth(worst_minecraft_launcher::modrinth::ModrinthError::NoCompatibleVersion(p)) if p == "p"
    ));
}

#[test]
fn loader_ids() {
    assert_eq!(ModLoader::Fabric.modrinth_id(), "fabric");
    assert_eq!(ModLoader::Forge.modrinth_id(), "forge");
    assert_eq!(ModLoader::Quilt.modrinth_id(), "quilt");
    assert_eq!(ModLoader::NeoForge.modrinth_id(), "neoforge");
    assert_eq!(ModLoader::Forge.curseforge_id(), 1);
    assert_eq!(ModLoader::Fabric.curseforge_id(), 4);
    assert_eq!(ModLoader::Quilt.curseforge_id(), 5);
    assert_eq!(ModLoader::NeoForge.curseforge_id(), 6);
}

#[test]
fn references() {
    let r = ModReference::curseforge(306612);
    assert_eq!(r.provider, Provider::CurseForge);
    assert_eq!(r.project_id, "306612");
    let m = ModReference::modrinth("fabric-api");
    assert_eq!(m.provider, Provider::Modrinth);
    assert_eq!(m.project_id, "fabric-api");
    assert_eq!(m.clone(), m);
    assert_ne!(m, ModReference::modrinth("sodium"));
}

#[test]
fn lookups_go_breadth_first_and_skip_resolved_references() {
    let mut resolver = Resolver::new(&[ModReference::modrinth("a"), ModReference::modrinth("b")]);
    let first = resolver.next_step(false).unwrap().unwrap();
    assert_eq!(first, ModReference::modrinth("a"));
    resolver.record(ResolvedMod {
        reference: first,
        version_id: "a-v".to_string(),
        filename: "a.jar".to_string(),
        download_url: "a-url".to_string(),
        sha1: None,
        dependencies: vec![ModReference::modrinth("a"), ModReference::modrinth("c")],
    });
    assert_eq!(resolver.next_step(false).unwrap().unwrap(), ModReference::modrinth("b"));
    // Asking again before recording hands out the same reference.
    assert_eq!(resolver.next_step(false).unwrap().unwrap(), ModReference::modrinth("b"));
}

#[test]
fn resolving_no_roots_resolves_nothing() {
    let catalog = Catalog { versions: vec![], files: vec![] };
    assert!(catalog.resolve(&[], true).unwrap().is_empty());
}
