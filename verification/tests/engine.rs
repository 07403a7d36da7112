use updtr::cli::{resolve_option, resolve_target, needs_config_update};
use updtr::config::{Config, FolderConfig};
use updtr::errors::EngineError;
use updtr::localdir::{LocalDir, LocalFile};
use updtr::manifest::VersionDefinition;
use updtr::reconcile::{apply_manifest, run_switch_mem};
use updtr::snapshot::run_create_mem;
use updtr::store::MemStore;

fn mk_file(path: &str, bytes: &[u8]) -> LocalFile {
    LocalFile { r_path: path.to_string(), content: bytes.to_vec() }
}

fn sample_files() -> Vec<LocalFile> {
    vec![
        mk_file("a.txt", b"alpha alpha alpha"),
        mk_file("sub/b.bin", &[0u8, 1, 2, 3, 4, 255]),
        mk_file("sub/deeper/c.md", b"# hello\nsome text\n"),
    ]
}

fn snapshot(names: &[&str], files: &Vec<LocalFile>, store: &mut MemStore) -> (VersionDefinition, updtr::report::CreateReport) {
    let names: Vec<String> = names.iter().map(|n| n.to_string()).collect();
    run_create_mem(Some("1.2.3".to_string()), &names, files, &".".to_string(), store)
        .expect("snapshot failed")
}

fn switch(name: &str, dir: &mut LocalDir, store: &MemStore) -> updtr::report::SwitchReport {
    run_switch_mem(&name.to_string(), dir, &".".to_string(), store)
        .expect("reconcile failed")
}

#[test]
fn idempotent_dedup() {
    let files = sample_files();
    let mut store = MemStore::new();
    let (_, rep1) = snapshot(&["v1"], &files, &mut store);
    assert_eq!(rep1.n_uploaded, 3);
    assert_eq!(rep1.n_already_existing, 0);
    let (_, rep2) = snapshot(&["v1"], &files, &mut store);
    assert_eq!(rep2.n_uploaded, 0);
    assert_eq!(rep2.n_already_existing, 3);
    assert_eq!(store.blob_count(), 3);
}

#[test]
fn content_identity_over_path() {
    let files = vec![
        mk_file("one/copy.dat", b"the very same bytes"),
        mk_file("two/copy.dat", b"the very same bytes"),
    ];
    let mut store = MemStore::new();
    let (m, rep) = snapshot(&["v1"], &files, &mut store);
    assert_eq!(rep.n_uploaded, 1);
    assert_eq!(rep.n_already_existing, 1);
    assert_eq!(store.blob_count(), 1);
    assert_eq!(m.files[0].u_sha256, m.files[1].u_sha256);
    assert_eq!(m.files[0].c_sha256, m.files[1].c_sha256);
    assert_eq!(m.files[0].c_len, m.files[1].c_len);
    assert_ne!(m.files[0].r_path, m.files[1].r_path);
}

#[test]
fn round_trip_restores_bytes() {
    let files = sample_files();
    let mut store = MemStore::new();
    snapshot(&["v1"], &files, &mut store);
    let mut dir = LocalDir::new();
    let rep = switch("v1", &mut dir, &store);
    assert_eq!(rep.n_missing, 3);
    assert_eq!(rep.n_changed, 0);
    assert_eq!(rep.n_unchanged, 0);
    for f in &files {
        let got = dir.file_content(&f.r_path).expect("file not restored");
        assert_eq!(got, f.content);
    }
}

#[test]
fn minimal_transfer_on_second_reconcile() {
    let files = sample_files();
    let mut store = MemStore::new();
    snapshot(&["v1"], &files, &mut store);
    let mut dir = LocalDir::new();
    switch("v1", &mut dir, &store);
    let rep = switch("v1", &mut dir, &store);
    assert_eq!(rep.n_unchanged, 3);
    assert_eq!(rep.n_changed, 0);
    assert_eq!(rep.n_missing, 0);
}

#[test]
fn change_detected_despite_equal_size() {
    let files = sample_files();
    let mut store = MemStore::new();
    snapshot(&["v1"], &files, &mut store);
    let mut dir = LocalDir::new();
    switch("v1", &mut dir, &store);
    // Same byte length, different content: only the digest can tell.
    let original = files[0].content.clone();
    let mut mutated = original.clone();
    mutated[0] ^= 0xFF;
    assert_eq!(mutated.len(), original.len());
    dir.set_file(&files[0].r_path, mutated);
    let rep = switch("v1", &mut dir, &store);
    assert_eq!(rep.n_changed, 1);
    assert_eq!(rep.n_unchanged, 2);
    assert_eq!(rep.n_missing, 0);
    assert_eq!(dir.file_content(&files[0].r_path).unwrap(), original);
}

#[test]
fn missing_file_restored() {
    let files = sample_files();
    let mut store = MemStore::new();
    snapshot(&["v1"], &files, &mut store);
    let mut dir = LocalDir::new();
    switch("v1", &mut dir, &store);
    dir.remove(&files[1].r_path);
    let rep = switch("v1", &mut dir, &store);
    assert_eq!(rep.n_missing, 1);
    assert_eq!(rep.n_unchanged, 2);
    assert_eq!(rep.n_changed, 0);
    assert_eq!(dir.file_content(&files[1].r_path).unwrap(), files[1].content);
}

#[test]
fn aliasing_two_names_one_snapshot() {
    let files = sample_files();
    let mut store = MemStore::new();
    let (_, rep) = snapshot(&["v1", "latest"], &files, &mut store);
    assert_eq!(rep.n_uploaded, 3);
    let mut dir_a = LocalDir::new();
    let mut dir_b = LocalDir::new();
    let rep_a = switch("v1", &mut dir_a, &store);
    let rep_b = switch("latest", &mut dir_b, &store);
    assert_eq!(rep_a, rep_b);
    for f in &files {
        assert_eq!(
            dir_a.file_content(&f.r_path).unwrap(),
            dir_b.file_content(&f.r_path).unwrap(),
        );
    }
}

#[test]
fn version_not_found() {
    let store = MemStore::new();
    let mut dir = LocalDir::new();
    let r = run_switch_mem(&"nope".to_string(), &mut dir, &".".to_string(), &store);
    assert!(matches!(r, Err(EngineError::VersionNotFound(n)) if n == "nope"));
}

#[test]
fn corrupt_version_document_is_parse_error() {
    let mut store = MemStore::new();
    store.put_version(
        &"./versions/bad".to_string(),
        "this is not a manifest".to_string(),
    );
    let mut dir = LocalDir::new();
    let r = run_switch_mem(&"bad".to_string(), &mut dir, &".".to_string(), &store);
    assert!(matches!(r, Err(EngineError::ParseError(_))));
}

#[test]
fn blob_not_found_for_foreign_record() {
    let files = sample_files();
    let mut store = MemStore::new();
    let (mut m, _) = snapshot(&["v1"], &files, &mut store);
    // Point one record at a digest nothing ever uploaded.
    m.files[0].u_sha256 = "0".repeat(64);
    let mut dir = LocalDir::new();
    let r = apply_manifest(&m, &mut dir, &store, &".".to_string());
    assert!(matches!(r, Err(EngineError::BlobNotFound(k)) if k.contains("/files/000")));
}

#[test]
fn unsupported_algorithm_rejected() {
    let files = sample_files();
    let mut store = MemStore::new();
    let (mut m, _) = snapshot(&["v1"], &files, &mut store);
    m.files[1].c_algo = "zstd".to_string();
    let mut dir = LocalDir::new();
    let r = apply_manifest(&m, &mut dir, &store, &".".to_string());
    assert!(matches!(r, Err(EngineError::UnsupportedAlgorithm(a)) if a == "zstd"));
}

#[test]
fn non_regular_entry_is_hard_error() {
    let files = sample_files();
    let mut store = MemStore::new();
    snapshot(&["v1"], &files, &mut store);
    let mut dir = LocalDir::new();
    dir.set_other(&files[2].r_path);
    let r = run_switch_mem(&"v1".to_string(), &mut dir, &".".to_string(), &store);
    assert!(matches!(r, Err(EngineError::PathError(p)) if p == files[2].r_path));
}

#[test]
fn manifest_records_identity() {
    let files = sample_files();
    let mut store = MemStore::new();
    let (m, _) = snapshot(&["v1"], &files, &mut store);
    assert_eq!(m.files.len(), 3);
    for (rec, f) in m.files.iter().zip(files.iter()) {
        assert_eq!(rec.r_path, f.r_path);
        assert_eq!(rec.u_len as usize, f.content.len());
        assert_eq!(rec.u_sha256.len(), 64);
        assert_eq!(rec.c_algo, "brotli");
        assert_eq!(rec.c_sha256.len(), 64);
    }
    assert_eq!(m.display_version.as_deref(), Some("1.2.3"));
}

#[test]
fn republish_replaces_version() {
    let files_v1 = vec![mk_file("a.txt", b"one")];
    let files_v2 = vec![mk_file("a.txt", b"two!")];
    let mut store = MemStore::new();
    snapshot(&["tag"], &files_v1, &mut store);
    snapshot(&["tag"], &files_v2, &mut store);
    let mut dir = LocalDir::new();
    switch("tag", &mut dir, &store);
    assert_eq!(dir.file_content(&"a.txt".to_string()).unwrap(), b"two!".to_vec());
}

#[test]
fn empty_directory_round_trip() {
    let files: Vec<LocalFile> = Vec::new();
    let mut store = MemStore::new();
    let (m, rep) = snapshot(&["v1"], &files, &mut store);
    assert_eq!(m.files.len(), 0);
    assert_eq!(rep.n_uploaded, 0);
    assert_eq!(rep.n_already_existing, 0);
    let mut dir = LocalDir::new();
    let srep = switch("v1", &mut dir, &store);
    assert_eq!(srep.n_unchanged, 0);
    assert_eq!(srep.n_changed, 0);
    assert_eq!(srep.n_missing, 0);
}

#[test]
fn empty_file_content_round_trips() {
    let files = vec![mk_file("empty.dat", b""), mk_file("full.dat", b"x")];
    let mut store = MemStore::new();
    snapshot(&["v1"], &files, &mut store);
    let mut dir = LocalDir::new();
    let rep = switch("v1", &mut dir, &store);
    assert_eq!(rep.n_missing, 2);
    assert_eq!(dir.file_content(&"empty.dat".to_string()).unwrap(), Vec::<u8>::new());
    assert_eq!(dir.file_content(&"full.dat".to_string()).unwrap(), b"x".to_vec());
}

#[test]
fn resolve_option_precedence() {
    assert_eq!(
        resolve_option(Some("arg".to_string()), Some("env".to_string()), "."),
        "arg",
    );
    assert_eq!(resolve_option(None, Some("env".to_string()), "."), "env");
    assert_eq!(resolve_option(None, None, "."), ".");
}

#[test]
fn resolve_target_prefers_arguments() {
    let fc = FolderConfig {
        last_installed_version: "old".to_string(),
        s3_url: "https://stored.example/bucket".to_string(),
        storage_path_prefix: Some("stored-prefix".to_string()),
    };
    let t = resolve_target(
        Some("new".to_string()),
        Some("https://given.example/b".to_string()),
        None,
        Some(&fc),
    )
    .unwrap();
    assert_eq!(t.version, "new");
    assert_eq!(t.s3_url, "https://given.example/b");
    assert_eq!(t.path_prefix, "stored-prefix");
}

#[test]
fn resolve_target_falls_back_to_config() {
    let fc = FolderConfig {
        last_installed_version: "old".to_string(),
        s3_url: "https://stored.example/bucket".to_string(),
        storage_path_prefix: None,
    };
    let t = resolve_target(None, None, None, Some(&fc)).unwrap();
    assert_eq!(t.version, "old");
    assert_eq!(t.s3_url, "https://stored.example/bucket");
    assert_eq!(t.path_prefix, ".");
}

#[test]
fn resolve_target_without_config_fails() {
    let r = resolve_target(None, None, None, None);
    assert!(matches!(r, Err(EngineError::PathError(_))));
}

#[test]
fn config_update_policy() {
    let fc = FolderConfig {
        last_installed_version: "v1".to_string(),
        s3_url: "https://s.example/b".to_string(),
        storage_path_prefix: None,
    };
    assert!(!needs_config_update(
        Some(&fc),
        &"v1".to_string(),
        &"https://s.example/b".to_string(),
    ));
    assert!(needs_config_update(
        Some(&fc),
        &"v2".to_string(),
        &"https://s.example/b".to_string(),
    ));
    assert!(needs_config_update(
        Some(&fc),
        &"v1".to_string(),
        &"https://other.example/b".to_string(),
    ));
    assert!(needs_config_update(None, &"v1".to_string(), &"x".to_string()));
}

#[test]
fn config_set_and_get() {
    let mut cfg = Config::new();
    let fc = FolderConfig {
        last_installed_version: "v1".to_string(),
        s3_url: "https://s.example/b".to_string(),
        storage_path_prefix: Some("p".to_string()),
    };
    cfg.set_folder(&"/data/app".to_string(), fc);
    let got = cfg.get_folder(&"/data/app".to_string()).unwrap();
    assert_eq!(got.last_installed_version, "v1");
    assert!(cfg.get_folder(&"/elsewhere".to_string()).is_none());
    let fc2 = FolderConfig {
        last_installed_version: "v2".to_string(),
        s3_url: "https://s.example/b".to_string(),
        storage_path_prefix: None,
    };
    cfg.set_folder(&"/data/app".to_string(), fc2);
    assert_eq!(cfg.folder_count(), 1);
    assert_eq!(
        cfg.get_folder(&"/data/app".to_string()).unwrap().last_installed_version,
        "v2",
    );
}
