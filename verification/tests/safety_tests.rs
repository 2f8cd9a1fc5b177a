use basecamp::safety::removal_guard;

#[test]
fn test_removal_guard_skips_absent_repositories() {
    // Nothing of this codebase is on disk: nothing to check, nothing to delete.
    let repos = vec!["missing-one".to_string(), "missing-two".to_string()];
    let on_disk = removal_guard("no-such-codebase", &repos, false).unwrap();
    assert!(on_disk.is_empty());
}

#[test]
fn test_removal_guard_with_force_never_fails() {
    let repos = vec!["missing-one".to_string()];
    let on_disk = removal_guard("no-such-codebase", &repos, true).unwrap();
    assert!(on_disk.is_empty());
}
