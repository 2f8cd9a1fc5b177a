use basecamp::batch::BatchResult;
use basecamp::config::Config;
use basecamp::error::BasecampError;
use basecamp::rollback::reconcile;

fn config_with(codebase: &str, repos: &[&str]) -> Config {
    let mut config = Config::new();
    config
        .set_github_url("https://github.com/test-org".to_string())
        .unwrap();
    let owned: Vec<String> = repos.iter().map(|r| r.to_string()).collect();
    config.add_repositories(codebase, &owned).unwrap();
    config
}

#[test]
fn test_rollback_drops_exactly_the_failed_names() {
    // add(["a", "b", "c"]) followed by an install where "b" fails: the
    // post-rollback codebase holds {"a", "c"} and not "b".
    let mut config = config_with("web", &["a", "b", "c"]);
    let batch = BatchResult {
        total: 3,
        succeeded: vec!["a".to_string(), "c".to_string()],
        already_present: Vec::new(),
        failed: vec![("b".to_string(), "remote not found".to_string())],
    };
    let removed = reconcile(&mut config, "web", &batch).unwrap();
    assert_eq!(removed, vec!["b".to_string()]);
    let repos = config.get_repositories("web").unwrap();
    assert_eq!(repos, &vec!["a".to_string(), "c".to_string()]);
    assert!(!repos.contains(&"b".to_string()));
}

#[test]
fn test_rollback_without_failures_changes_nothing() {
    let mut config = config_with("web", &["a", "b"]);
    let batch = BatchResult {
        total: 2,
        succeeded: vec!["a".to_string()],
        already_present: vec!["b".to_string()],
        failed: Vec::new(),
    };
    let removed = reconcile(&mut config, "web", &batch).unwrap();
    assert!(removed.is_empty());
    let repos = config.get_repositories("web").unwrap();
    assert_eq!(repos, &vec!["a".to_string(), "b".to_string()]);
}

#[test]
fn test_rollback_reports_missing_codebase() {
    let mut config = config_with("web", &["a"]);
    let batch = BatchResult {
        total: 1,
        succeeded: Vec::new(),
        already_present: Vec::new(),
        failed: vec![("a".to_string(), "boom".to_string())],
    };
    match reconcile(&mut config, "elsewhere", &batch) {
        Err(BasecampError::CodebaseNotFound(name)) => {
            assert_eq!(name, "elsewhere".to_string());
        }
        other => panic!("expected CodebaseNotFound, got {:?}", other),
    }
}

#[test]
fn test_rollback_reports_name_no_longer_listed() {
    let mut config = config_with("web", &["a"]);
    let batch = BatchResult {
        total: 2,
        succeeded: Vec::new(),
        already_present: Vec::new(),
        failed: vec![
            ("a".to_string(), "boom".to_string()),
            ("ghost".to_string(), "boom".to_string()),
        ],
    };
    match reconcile(&mut config, "web", &batch) {
        Err(BasecampError::RepositoryNotFound(repo, codebase)) => {
            assert_eq!(repo, "ghost".to_string());
            assert_eq!(codebase, "web".to_string());
        }
        other => panic!("expected RepositoryNotFound, got {:?}", other),
    }
    // "a" was removed before the walk stopped: the inconsistency is explicit.
    assert!(config.get_repositories("web").unwrap().is_empty());
}
