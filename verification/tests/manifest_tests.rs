use maelstrom_core::client::{hash_artifact_bytes, ClientState};
use maelstrom_core::config::{parse_case_listing, parse_terse_case_listing};
use maelstrom_core::digest_store::DigestRepositoryContents;
use maelstrom_core::dispatcher::ArtifactType;
use maelstrom_core::manifest::{calculate_manifest_entry_path, expand_braces, manifest_name,
    stub_entries, symlink_entries, ManifestEntry, ManifestEntryData, MANIFEST_TIMESTAMP};
use maelstrom_core::metadata::{Layer, PrefixOptions, SymlinkSpec};
use sha2::Digest as _;

#[test]
fn artifact_digest_is_sha256_hex() {
    // A fixed, externally known digest.
    assert_eq!(
        hash_artifact_bytes(&b"abc".to_vec()),
        "ba7816bf8f01cfea414140de5dae2223b00361a396177a9cb410ff61f20015ad"
    );
    // A large input agrees with an independent computation: a megabyte of
    // zeros, the shape of a typical artifact payload.
    let big = vec![0u8; 1 << 20];
    let expected: String = sha2::Sha256::digest(&big)
        .iter()
        .map(|b| format!("{:02x}", b))
        .collect();
    assert_eq!(hash_artifact_bytes(&big), expected);
}

#[test]
fn stub_entries_expand_braces() {
    let entries = stub_entries(&"/a/{b,c}/d".to_string()).unwrap();
    assert_eq!(entries.len(), 2);
    assert_eq!(entries[0].path, "/a/b/d");
    assert_eq!(entries[1].path, "/a/c/d");
    assert_eq!(entries[0].data, ManifestEntryData::File(None));
    assert_eq!(entries[0].mode, 0o444);
    assert_eq!(entries[0].mtime, MANIFEST_TIMESTAMP);
}

#[test]
fn stub_entries_mark_directories() {
    let entries = stub_entries(&"/{proc,sys,tmp}/".to_string()).unwrap();
    assert_eq!(entries.len(), 3);
    for (entry, path) in entries.iter().zip(["/proc/", "/sys/", "/tmp/"]) {
        assert_eq!(entry.path, path);
        assert_eq!(entry.data, ManifestEntryData::Directory);
        assert_eq!(entry.mode, 0o555);
        assert_eq!(entry.size, 0);
    }
}

#[test]
fn stub_entries_reject_bad_pattern() {
    assert!(stub_entries(&"/open{".to_string()).is_err());
}

#[test]
fn expand_braces_passes_plain_paths_through() {
    assert_eq!(
        expand_braces(&"/plain/path".to_string()).unwrap(),
        vec!["/plain/path".to_string()]
    );
    assert_eq!(
        expand_braces(&"/dev/{null,zero}".to_string()).unwrap(),
        vec!["/dev/null".to_string(), "/dev/zero".to_string()]
    );
}

#[test]
fn symlink_entries_carry_targets() {
    let entries = symlink_entries(&vec![SymlinkSpec {
        link: "/usr/lib".to_string(),
        target: "/lib".to_string(),
    }]);
    assert_eq!(
        entries,
        vec![ManifestEntry {
            path: "/usr/lib".to_string(),
            size: 0,
            mode: 0o444,
            mtime: MANIFEST_TIMESTAMP,
            data: ManifestEntryData::Symlink("/lib".to_string()),
        }]
    );
}

#[test]
fn manifest_names_are_stable_and_input_sensitive() {
    let a = manifest_name(&vec!["/a".to_string(), "/b".to_string()]);
    let b = manifest_name(&vec!["/a".to_string(), "/b".to_string()]);
    let c = manifest_name(&vec!["/a".to_string(), "/c".to_string()]);
    assert_eq!(a, b);
    assert_ne!(a, c);
    assert_eq!(a.len(), 64);
}

#[test]
fn entry_path_strip_and_prepend() {
    let opts = PrefixOptions {
        canonicalize: false,
        strip_prefix: Some("/work".to_string()),
        prepend_prefix: Some("/opt".to_string()),
    };
    // Strip applies at a component boundary; the stripped relative path is
    // placed under the new prefix.
    assert_eq!(
        calculate_manifest_entry_path(&"/work/src/main.rs".to_string(), &opts),
        "/opt/src/main.rs"
    );
    // A path the prefix does not cover is prepended as-is; its leading
    // separator is dropped first.
    assert_eq!(
        calculate_manifest_entry_path(&"/elsewhere/x".to_string(), &opts),
        "/opt/elsewhere/x"
    );
    let no_opts = PrefixOptions {
        canonicalize: false,
        strip_prefix: None,
        prepend_prefix: None,
    };
    assert_eq!(
        calculate_manifest_entry_path(&"a/b".to_string(), &no_opts),
        "a/b"
    );
}

#[test]
fn client_registers_each_path_once() {
    let mut state = ClientState::new(DigestRepositoryContents::new());
    assert!(state.register_artifact_once(&"/a.tar".to_string()));
    assert!(!state.register_artifact_once(&"/a.tar".to_string()));
    assert!(state.register_artifact_once(&"/b.tar".to_string()));
}

#[test]
fn client_memoizes_layers() {
    let mut state = ClientState::new(DigestRepositoryContents::new());
    let layer = Layer::Tar { path: "/a.tar".to_string() };
    assert!(state.cached_layer(&layer).is_none());
    state.cache_layer(
        Layer::Tar { path: "/a.tar".to_string() },
        "d1".to_string(),
        ArtifactType::Tar,
    );
    let hit = state.cached_layer(&layer).unwrap();
    assert_eq!(hit.digest, "d1");
    assert_eq!(hit.kind, ArtifactType::Tar);
    let other = Layer::Stubs { stubs: vec!["/tmp/".to_string()] };
    assert!(state.cached_layer(&other).is_none());
}

#[test]
fn client_uses_fresh_store_entries_only() {
    let mut store = DigestRepositoryContents::new();
    store.add("/a".to_string(), "t1".to_string(), "d1".to_string());
    let state = ClientState::new(store);
    assert_eq!(
        state.cached_digest(&"/a".to_string(), &"t1".to_string()),
        Some("d1".to_string())
    );
    assert_eq!(state.cached_digest(&"/a".to_string(), &"t2".to_string()), None);
}

#[test]
fn case_listing_parsing() {
    assert_eq!(
        parse_case_listing("TestFoo\nTestBar\n\n  \nTestBaz"),
        vec!["TestFoo", "TestBar", "TestBaz"]
    );
    assert_eq!(
        parse_terse_case_listing("alpha: test\nnoise\nbeta: test\n"),
        vec!["alpha", "beta"]
    );
}
