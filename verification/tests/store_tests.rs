use maelstrom_core::digest_store::{DigestRepositoryContents, DigestRepositoryVersion};

#[test]
fn digest_repository_simple_add_get() {
    let mut store = DigestRepositoryContents::new();
    assert_eq!(store.version, DigestRepositoryVersion::V0);
    store.add(
        "/x/foo.tar".to_string(),
        "2024-01-11T11:11:11Z".to_string(),
        "d1".to_string(),
    );
    assert_eq!(
        store.get(
            &"/x/foo.tar".to_string(),
            &"2024-01-11T11:11:11Z".to_string()
        ),
        Some("d1".to_string())
    );
}

#[test]
fn digest_repository_simple_add_get_after_modify() {
    let mut store = DigestRepositoryContents::new();
    store.add(
        "/x".to_string(),
        "2024-01-11T11:11:11Z".to_string(),
        "d1".to_string(),
    );
    // The file changed; the observed modification time differs.
    assert_eq!(
        store.get(&"/x".to_string(), &"2024-01-11T11:11:12Z".to_string()),
        None
    );
    // Recomputing records the new digest under the new time.
    store.add(
        "/x".to_string(),
        "2024-01-11T11:11:12Z".to_string(),
        "d2".to_string(),
    );
    assert_eq!(
        store.get(&"/x".to_string(), &"2024-01-11T11:11:12Z".to_string()),
        Some("d2".to_string())
    );
    assert_ne!(
        store.get(&"/x".to_string(), &"2024-01-11T11:11:12Z".to_string()),
        Some("d1".to_string())
    );
}

#[test]
fn digest_store_serialize_exact() {
    let mut store = DigestRepositoryContents::new();
    store.add(
        "/a.tar".to_string(),
        "2024-01-11T11:11:11Z".to_string(),
        "abc123".to_string(),
    );
    assert_eq!(
        store.to_pretty_string(),
        "version = 0\n\n[digests.\"/a.tar\"]\ndigest = \"abc123\"\nmtime = \"2024-01-11T11:11:11Z\"\n"
    );
}

#[test]
fn digest_store_round_trip() {
    let mut store = DigestRepositoryContents::new();
    store.add(
        "/a.tar".to_string(),
        "2024-01-11T11:11:11Z".to_string(),
        "d1".to_string(),
    );
    store.add(
        "/b.tar".to_string(),
        "2024-02-22T22:22:22Z".to_string(),
        "d2".to_string(),
    );
    // Overwrite an entry; only the newest survives serialization.
    store.add(
        "/a.tar".to_string(),
        "2024-03-03T03:03:03Z".to_string(),
        "d3".to_string(),
    );
    let text = store.to_pretty_string();
    let read = DigestRepositoryContents::from_str(&text);
    assert_eq!(
        read.get(&"/a.tar".to_string(), &"2024-03-03T03:03:03Z".to_string()),
        Some("d3".to_string())
    );
    assert_eq!(
        read.get(&"/b.tar".to_string(), &"2024-02-22T22:22:22Z".to_string()),
        Some("d2".to_string())
    );
    assert_eq!(
        read.get(&"/a.tar".to_string(), &"2024-01-11T11:11:11Z".to_string()),
        None
    );
    // A second serialization is identical: the table is stable.
    assert_eq!(read.to_pretty_string(), text);
}

#[test]
fn digest_store_unknown_version_is_empty() {
    let read = DigestRepositoryContents::from_str("version = 7\n\n[digests.\"/a\"]\ndigest = \"d\"\nmtime = \"t\"\n");
    assert_eq!(read.get(&"/a".to_string(), &"t".to_string()), None);
}

#[test]
fn digest_store_corrupt_is_empty() {
    let read = DigestRepositoryContents::from_str("not even close [");
    assert_eq!(read.get(&"/a".to_string(), &"t".to_string()), None);
    let read = DigestRepositoryContents::from_str("");
    assert_eq!(read.get(&"/a".to_string(), &"t".to_string()), None);
}
