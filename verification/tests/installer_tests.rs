use worst_minecraft_launcher::digest::sha1_hex;
use worst_minecraft_launcher::installer::{
    existing_file_action, install_loader, verify_download, ExistingFile, FileAction, Installer,
};
use worst_minecraft_launcher::instance::Instance;
use worst_minecraft_launcher::java::JavaRuntime;
use worst_minecraft_launcher::mods::{ModError, ModLoader, ModReference, ResolvedMod};

fn test_instance(loader: Option<ModLoader>) -> Instance {
    Instance {
        name: "Test Instance".to_string(),
        version_id: "1.21.4".to_string(),
        dir: "/tmp/instance".to_string(),
        account_uuid: "00000000-0000-0000-0000-000000000000".to_string(),
        java: JavaRuntime { path: "/usr/bin/java".to_string(), version: "21".to_string() },
        mod_loader: loader,
    }
}

fn resolved(sha1: Option<&str>) -> ResolvedMod {
    ResolvedMod {
        reference: ModReference::modrinth("root"),
        version_id: "root-v".to_string(),
        filename: "root.jar".to_string(),
        download_url: "https://example.com/download/root.jar".to_string(),
        sha1: sha1.map(|s| s.to_string()),
        dependencies: vec![],
    }
}

#[test]
fn install_rejects_a_vanilla_instance_without_any_network_call() {
    let err = install_loader(&test_instance(None)).unwrap_err();
    assert!(matches!(err, ModError::VanillaInstance));
    assert_eq!(install_loader(&test_instance(Some(ModLoader::Fabric))).unwrap(), ModLoader::Fabric);
}

#[test]
fn install_downloads_files_and_verifies_hash() {
    let payload = b"pretend this is a jar file";
    let expected_sha1 = sha1_hex(payload);
    let m = resolved(Some(&expected_sha1));
    assert!(verify_download(&m, &sha1_hex(payload)).is_ok());
    let err = verify_download(&m, &sha1_hex(b"something else")).unwrap_err();
    assert!(matches!(err, ModError::HashMismatch(f) if f == "root.jar"));
    assert!(verify_download(&resolved(None), &sha1_hex(b"anything")).is_ok());
}

#[test]
fn an_existing_file_with_a_matching_hash_is_not_downloaded_again() {
    let m = resolved(Some("abc"));
    assert_eq!(existing_file_action(&m, &ExistingFile::Absent), FileAction::Download);
    assert_eq!(
        existing_file_action(&m, &ExistingFile::Present(Some("abc".to_string()))),
        FileAction::Keep
    );
    assert_eq!(
        existing_file_action(&m, &ExistingFile::Present(Some("stale".to_string()))),
        FileAction::Download
    );
    assert_eq!(existing_file_action(&m, &ExistingFile::Present(None)), FileAction::Download);
    let unhashed = resolved(None);
    assert_eq!(existing_file_action(&unhashed, &ExistingFile::Present(None)), FileAction::Keep);
    assert_eq!(existing_file_action(&unhashed, &ExistingFile::Absent), FileAction::Download);
}

fn named(name: &str, sha1: Option<&str>) -> ResolvedMod {
    let mut m = resolved(sha1);
    m.filename = name.to_string();
    m
}

#[test]
fn the_installer_keeps_matching_files_and_verifies_downloads() {
    let payload = b"pretend this is a jar file";
    let good = sha1_hex(payload);
    let mut installer = Installer::new(vec![
        named("kept.jar", Some(&good)),
        named("stale.jar", Some(&good)),
        named("unhashed.jar", None),
        named("missing.jar", Some(&good)),
    ]);

    assert_eq!(installer.current().unwrap().filename, "kept.jar");
    assert_eq!(installer.on_existing(ExistingFile::Present(Some(good.clone()))), FileAction::Keep);

    assert_eq!(installer.current().unwrap().filename, "stale.jar");
    assert_eq!(
        installer.on_existing(ExistingFile::Present(Some(sha1_hex(b"old")))),
        FileAction::Download
    );
    assert!(installer.on_downloaded(Some(sha1_hex(payload))).is_ok());

    assert_eq!(installer.on_existing(ExistingFile::Present(None)), FileAction::Keep);

    assert_eq!(installer.current().unwrap().filename, "missing.jar");
    assert_eq!(installer.on_existing(ExistingFile::Absent), FileAction::Download);
    let err = installer.on_downloaded(Some(sha1_hex(b"corrupt"))).unwrap_err();
    assert!(matches!(err, ModError::HashMismatch(f) if f == "missing.jar"));
    assert!(installer.on_downloaded(Some(good.clone())).is_ok());

    assert!(installer.current().is_none());
    assert_eq!(installer.finish(), vec!["kept.jar", "stale.jar", "unhashed.jar", "missing.jar"]);
}
