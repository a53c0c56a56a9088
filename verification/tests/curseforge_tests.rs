use worst_minecraft_launcher::curseforge::{
    best_file_of, check_status, CurseForgeClient, CurseForgeError, File, FileDependency, FileHash,
};

fn file(id: u32, file_date: &str) -> File {
    File {
        id,
        mod_id: 6789,
        file_name: format!("file-{id}.jar"),
        file_date: file_date.to_string(),
        download_url: Some(format!("https://example.com/file-{id}.jar")),
        dependencies: vec![
            FileDependency { mod_id: 111, relation_type: 3 },
            FileDependency { mod_id: 222, relation_type: 2 },
        ],
        hashes: vec![FileHash { value: "abc123".to_string(), algo: 1 }],
    }
}

#[test]
fn missing_api_key_errors_without_a_network_call() {
    let client = CurseForgeClient::with_base_url("https://example.invalid".to_string(), None);
    let err = client.files_request(6789, 4, "1.21.4").unwrap_err();
    assert!(matches!(err, CurseForgeError::MissingApiKey));
}

#[test]
fn best_file_picks_the_most_recently_dated_and_sends_the_api_key() {
    let client = CurseForgeClient::with_base_url(
        "http://localhost:1234".to_string(),
        Some("test-key".to_string()),
    );
    let req = client.files_request(6789, 4, "1.21.4").unwrap();
    assert_eq!(req.url, "http://localhost:1234/mods/6789/files");
    assert_eq!(req.headers, vec![("x-api-key".to_string(), "test-key".to_string())]);
    assert_eq!(
        req.query,
        vec![
            ("gameVersion".to_string(), "1.21.4".to_string()),
            ("modLoaderType".to_string(), "4".to_string()),
        ]
    );

    let files = vec![
        file(1, "2024-01-01T00:00:00.000Z"),
        file(2, "2024-06-01T00:00:00.000Z"),
    ];
    let file = best_file_of(files, 6789).unwrap();
    assert_eq!(file.id, 2);
    assert_eq!(file.sha1(), Some("abc123"));
    assert!(file.dependencies.iter().any(|d| d.mod_id == 111 && d.is_required()));
    assert!(file.dependencies.iter().any(|d| d.mod_id == 222 && !d.is_required()));
}

#[test]
fn no_files_is_no_compatible_file() {
    assert!(matches!(best_file_of(vec![], 6789), Err(CurseForgeError::NoCompatibleFile(6789))));
}

#[test]
fn sha1_takes_the_first_sha1_entry() {
    let mut f = file(1, "2024-01-01");
    f.hashes = vec![
        FileHash { value: "md5".to_string(), algo: 2 },
        FileHash { value: "first".to_string(), algo: 1 },
        FileHash { value: "second".to_string(), algo: 1 },
    ];
    assert_eq!(f.sha1(), Some("first"));
    f.hashes = vec![FileHash { value: "md5".to_string(), algo: 2 }];
    assert_eq!(f.sha1(), None);
}

#[test]
fn curseforge_client_defaults_and_statuses() {
    assert_eq!(CurseForgeClient::new(None).base_url(), "https://api.curseforge.com/v1");
    assert!(check_status(200).is_ok());
    assert!(matches!(check_status(403), Err(CurseForgeError::Status(403))));
}
