use worst_minecraft_launcher::http::is_success;
use worst_minecraft_launcher::modrinth::{
    best_version_of, check_status, Dependency, DependencyType, FileHashes, ModrinthClient,
    ModrinthError, Version, VersionFile,
};

fn version(id: &str, date_published: &str) -> Version {
    Version {
        id: id.to_string(),
        project_id: "p1".to_string(),
        version_number: "1.0".to_string(),
        game_versions: vec!["1.21.4".to_string()],
        loaders: vec!["fabric".to_string()],
        date_published: date_published.to_string(),
        dependencies: vec![],
        files: vec![VersionFile {
            url: format!("https://example.com/{id}.jar"),
            filename: format!("{id}.jar"),
            primary: true,
            hashes: FileHashes { sha1: Some("abc123".to_string()), sha512: None },
        }],
    }
}

fn file(name: &str, primary: bool) -> VersionFile {
    VersionFile {
        url: format!("https://example.com/{name}"),
        filename: name.to_string(),
        primary,
        hashes: FileHashes::default(),
    }
}

#[test]
fn best_version_picks_the_most_recently_published() {
    let versions = vec![
        version("older", "2024-01-01T00:00:00Z"),
        version("newer", "2024-06-01T00:00:00Z"),
    ];
    let version = best_version_of(versions, "p1").unwrap();
    assert_eq!(version.id, "newer");
    assert_eq!(version.primary_file().unwrap().filename, "newer.jar");
}

#[test]
fn best_version_keeps_the_first_of_equally_dated() {
    let versions = vec![
        version("first", "2024-06-01T00:00:00Z"),
        version("old", "2023-06-01T00:00:00Z"),
        version("second", "2024-06-01T00:00:00Z"),
    ];
    assert_eq!(best_version_of(versions, "p1").unwrap().id, "first");
}

#[test]
fn no_matching_versions_is_an_error() {
    let err = best_version_of(vec![], "p1").unwrap_err();
    assert!(matches!(err, ModrinthError::NoCompatibleVersion(id) if id == "p1"));
}

#[test]
fn primary_file_prefers_the_primary_then_the_first() {
    let mut v = version("v", "2024-01-01");
    v.files = vec![file("a.jar", false), file("b.jar", true), file("c.jar", true)];
    assert_eq!(v.primary_file().unwrap().filename, "b.jar");
    v.files = vec![file("a.jar", false), file("b.jar", false)];
    assert_eq!(v.primary_file().unwrap().filename, "a.jar");
    v.files = vec![];
    assert!(v.primary_file().is_none());
}

#[test]
fn versions_request_filters_by_loader_and_game_version() {
    let client = ModrinthClient::with_base_url("http://localhost:1234".to_string());
    let req = client.versions_request("fabric-api", "fabric", "1.21.4");
    assert_eq!(req.url, "http://localhost:1234/project/fabric-api/version");
    assert_eq!(
        req.query,
        vec![
            ("loaders".to_string(), "[\"fabric\"]".to_string()),
            ("game_versions".to_string(), "[\"1.21.4\"]".to_string()),
        ]
    );
    assert!(req.headers.is_empty());
    let req = client.version_request("abc");
    assert_eq!(req.url, "http://localhost:1234/version/abc");
    assert_eq!(ModrinthClient::new().base_url(), "https://api.modrinth.com/v2");
    assert_eq!(ModrinthClient::default().base_url(), "https://api.modrinth.com/v2");
}

#[test]
fn statuses_outside_2xx_are_errors() {
    assert!(check_status(200).is_ok());
    assert!(check_status(204).is_ok());
    assert!(matches!(check_status(404), Err(ModrinthError::Status(404))));
    assert!(matches!(check_status(199), Err(ModrinthError::Status(199))));
    assert!(matches!(check_status(300), Err(ModrinthError::Status(300))));
    assert!(is_success(299) && !is_success(500));
}

#[test]
fn dependency_type_is_plain_data() {
    let d = Dependency { version_id: None, project_id: Some("a".to_string()), dependency_type: DependencyType::Required };
    assert_eq!(d.dependency_type, DependencyType::Required);
    assert_ne!(DependencyType::Optional, DependencyType::Embedded);
}
