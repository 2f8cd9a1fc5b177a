use basecamp::config::Config;
use basecamp::error::BasecampError;

#[test]
fn test_add_repositories() {
    // Setup
    let mut config = Config::new();
    config
        .set_github_url("https://github.com/test-org".to_string())
        .unwrap();

    // Test
    config
        .add_repositories("frontend", &["repo1".to_string(), "repo2".to_string()])
        .unwrap();
    config
        .add_repositories("backend", &["api".to_string()])
        .unwrap();

    // Verify
    assert_eq!(config.codebases_config.codebases.len(), 2);
    assert_eq!(config.codebases_config.codebases.get("frontend").unwrap().len(), 2);
    assert_eq!(config.codebases_config.codebases.get("backend").unwrap().len(), 1);

    // Test adding to existing codebase
    config
        .add_repositories("frontend", &["repo3".to_string()])
        .unwrap();
    assert_eq!(config.codebases_config.codebases.get("frontend").unwrap().len(), 3);
}

#[test]
fn test_remove_repositories() {
    // Setup
    let mut config = Config::new();
    config
        .set_github_url("https://github.com/test-org".to_string())
        .unwrap();
    config
        .add_repositories(
            "frontend",
            &[
                "repo1".to_string(),
                "repo2".to_string(),
                "repo3".to_string(),
            ],
        )
        .unwrap();

    // Test
    config
        .remove_repositories("frontend", &["repo2".to_string()])
        .unwrap();

    // Verify
    let repos = config.get_repositories("frontend").unwrap();
    assert_eq!(repos.len(), 2);
    assert!(repos.contains(&"repo1".to_string()));
    assert!(!repos.contains(&"repo2".to_string()));
    assert!(repos.contains(&"repo3".to_string()));
}

#[test]
fn test_add_repositories_reports_added_and_skips_duplicates() {
    let mut config = Config::new();
    config
        .set_github_url("https://github.com/test-org".to_string())
        .unwrap();
    let added = config
        .add_repositories("web", &["a".to_string(), "b".to_string()])
        .unwrap();
    assert_eq!(added, vec!["a".to_string(), "b".to_string()]);

    // "a" is already listed: only "c" is added, nothing is doubled.
    let added = config
        .add_repositories("web", &["a".to_string(), "c".to_string(), "c".to_string()])
        .unwrap();
    assert_eq!(added, vec!["c".to_string()]);
    let repos = config.get_repositories("web").unwrap();
    assert_eq!(repos, &vec!["a".to_string(), "b".to_string(), "c".to_string()]);
}

#[test]
fn test_set_github_url_rejects_other_forms() {
    let mut config = Config::new();
    let r = config.set_github_url("ftp://example.com/org".to_string());
    match r {
        Err(BasecampError::InvalidGitHubUrl(url)) => {
            assert_eq!(url, "ftp://example.com/org".to_string());
        }
        other => panic!("expected InvalidGitHubUrl, got {:?}", other),
    }
    assert!(!config.has_github_url());
    config.set_github_url("git@github.com:org".to_string()).unwrap();
    assert!(config.has_github_url());
}

#[test]
fn test_remove_codebase_and_missing_codebase_error() {
    let mut config = Config::new();
    config
        .set_github_url("https://github.com/test-org".to_string())
        .unwrap();
    config.add_repositories("tools", &["t1".to_string()]).unwrap();
    assert!(config.codebases_config.codebases.contains_key("tools"));
    config.remove_codebase("tools").unwrap();
    assert!(!config.codebases_config.codebases.contains_key("tools"));
    match config.remove_codebase("tools") {
        Err(BasecampError::CodebaseNotFound(name)) => assert_eq!(name, "tools".to_string()),
        other => panic!("expected CodebaseNotFound, got {:?}", other),
    }
    match config.get_repositories("tools") {
        Err(BasecampError::CodebaseNotFound(name)) => assert_eq!(name, "tools".to_string()),
        other => panic!("expected CodebaseNotFound, got {:?}", other),
    }
}

#[test]
fn test_remove_repositories_stops_at_missing_name() {
    let mut config = Config::new();
    config
        .set_github_url("https://github.com/test-org".to_string())
        .unwrap();
    config
        .add_repositories("web", &["a".to_string(), "b".to_string()])
        .unwrap();
    // "a" is removed before the walk stops on the unknown "x".
    match config.remove_repositories("web", &["a".to_string(), "x".to_string()]) {
        Err(BasecampError::RepositoryNotFound(repo, codebase)) => {
            assert_eq!(repo, "x".to_string());
            assert_eq!(codebase, "web".to_string());
        }
        other => panic!("expected RepositoryNotFound, got {:?}", other),
    }
    let repos = config.get_repositories("web").unwrap();
    assert_eq!(repos, &vec!["b".to_string()]);
    // A missing codebase is its own error.
    match config.remove_repositories("nope", &["a".to_string()]) {
        Err(BasecampError::CodebaseNotFound(name)) => assert_eq!(name, "nope".to_string()),
        other => panic!("expected CodebaseNotFound, got {:?}", other),
    }
}

#[test]
fn test_list_codebases_keeps_insertion_order() {
    let mut config = Config::new();
    config
        .set_github_url("https://github.com/test-org".to_string())
        .unwrap();
    config.add_repositories("frontend", &["ui".to_string()]).unwrap();
    config.add_repositories("backend", &["api".to_string()]).unwrap();
    assert_eq!(
        config.list_codebases(),
        vec!["frontend".to_string(), "backend".to_string()]
    );
}

#[test]
fn test_config_paths() {
    assert_eq!(Config::get_basecamp_dir(), ".basecamp".to_string());
    assert_eq!(Config::get_config_path(), ".basecamp/config.yaml".to_string());
    assert_eq!(Config::get_codebases_path(), ".basecamp/codebases.yaml".to_string());
}
