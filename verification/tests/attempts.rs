use mergiraf::attempts::{join_path, AttemptsCache, DEFAULT_FILE_EXTENSION};

fn cache() -> AttemptsCache {
    AttemptsCache::new(Some("/tmp/cache"), None, Some(2)).expect("Could not create attempts cache")
}

#[test]
fn test_lifecycle() {
    let cache = cache();
    let attempt = cache.new_attempt("foo/bar/MyFile.java");
    assert_eq!(attempt.file_name, "MyFile.java");
    assert_eq!(attempt.extension, "java");
    assert_eq!(attempt.uid.len(), 8);
    assert!(attempt.uid.chars().all(|c| c.is_ascii_alphanumeric()));
    assert_eq!(attempt.dir, format!("/tmp/cache/{}", attempt.id()));
    assert_eq!(attempt.path("Base"), format!("/tmp/cache/{}/Base.java", attempt.id()));

    let attempt_id = attempt.id();
    let parsed_attempt = cache
        .parse_attempt_id(&attempt_id)
        .expect("Could not parse attempt id");

    assert_eq!(attempt, parsed_attempt);
    assert_eq!(
        attempt.best_merge_path(),
        format!("/tmp/cache/{}/best_merge.txt", attempt.id())
    );
}

#[test]
fn test_no_extension() {
    let cache = cache();
    let attempt = cache.new_attempt("foo/bar/MyFile");
    assert_eq!(attempt.file_name, "MyFile");
    assert_eq!(attempt.extension, DEFAULT_FILE_EXTENSION);
    assert_eq!(attempt.path("Base"), format!("/tmp/cache/{}/Base.txt", attempt.id()));

    let attempt_id = attempt.id();
    let parsed_attempt = cache
        .parse_attempt_id(&attempt_id)
        .expect("Could not parse attempt id");

    assert_eq!(attempt, parsed_attempt);
}

#[test]
fn attempt_with_given_uid() {
    let cache = cache();
    let attempt = cache.attempt_named("a/b_c.d.rs", "XYZ".to_string());
    assert_eq!(attempt.file_name, "b_c.d.rs");
    assert_eq!(attempt.extension, "rs");
    assert_eq!(attempt.id(), "b_c.d.rs_XYZ");
    assert_eq!(cache.parse_attempt_id("b_c.d.rs_XYZ").unwrap(), attempt);
    let unnamed = cache.attempt_named("", "U".to_string());
    assert_eq!(unnamed.file_name, "file");
    assert_eq!(unnamed.extension, "txt");
}

#[test]
fn invalid_attempt_id() {
    assert_eq!(
        cache().parse_attempt_id("nounderscore").unwrap_err(),
        "Invalid attempt id, should contain a '_' character"
    );
}

#[test]
fn cache_directory_choice() {
    let c = AttemptsCache::new(None, Some("/data/merges"), None).unwrap();
    assert_eq!(c.base_dir(), "/data/merges");
    assert!(AttemptsCache::new(None, None, None).is_err());
}

#[test]
fn test_prune() {
    let cache = cache();
    let dirs = vec![
        ("old".to_string(), 10u128),
        ("newest".to_string(), 30u128),
        ("middle".to_string(), 20u128),
        ("tie_second".to_string(), 20u128),
    ];
    assert_eq!(cache.attempts_to_prune(&dirs), vec!["old".to_string(), "tie_second".to_string()]);
    assert!(cache.attempts_to_prune(&dirs[..2].to_vec()).is_empty());
}

#[test]
fn paths_are_joined() {
    assert_eq!(join_path("a", "b"), "a/b");
    assert_eq!(join_path("a/", "b"), "a/b");
    assert_eq!(join_path("", "b"), "b");
    assert_eq!(join_path("a", "/b"), "/b");
}
