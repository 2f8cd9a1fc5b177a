use basecamp::config::build_github_url;
use basecamp::config::init_github_url;
use basecamp::credentials::infer_username;
use basecamp::error::BasecampError;
use basecamp::git::GitRepo;

#[test]
fn test_build_repo_url_https() {
    assert_eq!(
        GitRepo::build_repo_url("https://github.com/org", "repo"),
        "https://github.com/org/repo.git".to_string()
    );
    assert_eq!(
        GitRepo::build_repo_url("https://github.com/org/", "repo"),
        "https://github.com/org/repo.git".to_string()
    );
}

#[test]
fn test_build_repo_url_ssh() {
    assert_eq!(
        GitRepo::build_repo_url("git@github.com:org", "repo"),
        "git@github.com:org/repo.git".to_string()
    );
    assert_eq!(
        GitRepo::build_repo_url("git@github.com:org/", "repo"),
        "git@github.com:org/repo.git".to_string()
    );
}

#[test]
fn test_build_repo_url_fallback() {
    // Not an HTTPS URL and not a single-colon SSH URL: a slash is always added.
    assert_eq!(
        GitRepo::build_repo_url("git@github.com:org:x", "repo"),
        "git@github.com:org:x/repo.git".to_string()
    );
    assert_eq!(
        GitRepo::build_repo_url("example.com/org", "repo"),
        "example.com/org/repo.git".to_string()
    );
}

#[test]
fn test_get_repo_path() {
    assert_eq!(GitRepo::get_repo_path("frontend", "ui"), "frontend/ui".to_string());
}

#[test]
fn test_infer_username() {
    assert_eq!(infer_username("git@github.com:org"), "github.com".to_string());
    assert_eq!(infer_username("https://github.com/org"), "git".to_string());
    assert_eq!(infer_username("git@host"), "host".to_string());
}

#[test]
fn test_build_github_url() {
    assert_eq!(
        build_github_url(true, "test-org"),
        "https://github.com/test-org".to_string()
    );
    assert_eq!(
        build_github_url(false, "test-org"),
        "git@github.com:test-org".to_string()
    );
}

#[test]
fn test_init_github_url_non_interactive() {
    let url = init_github_url(
        Some("https".to_string()),
        Some("org".to_string()),
        Some("test-org".to_string()),
    )
    .unwrap();
    assert_eq!(url, "https://github.com/test-org".to_string());

    let url = init_github_url(
        Some("ssh".to_string()),
        Some("personal".to_string()),
        Some("someone".to_string()),
    )
    .unwrap();
    assert_eq!(url, "git@github.com:someone".to_string());
}

#[test]
fn test_init_github_url_rejects_bad_parameters() {
    match init_github_url(Some("carrier-pigeon".to_string()), Some("org".to_string()), None) {
        Err(BasecampError::Generic(m)) => {
            assert_eq!(m, "Invalid connection type: carrier-pigeon. Use 'https' or 'ssh'");
        }
        other => panic!("expected Generic, got {:?}", other),
    }
    match init_github_url(None, None, None) {
        Err(BasecampError::Generic(m)) => {
            assert_eq!(m, "In non-interactive mode, connection-type must be provided");
        }
        other => panic!("expected Generic, got {:?}", other),
    }
    match init_github_url(Some("https".to_string()), Some("club".to_string()), None) {
        Err(BasecampError::Generic(m)) => {
            assert_eq!(m, "Invalid repository type: club. Use 'org' or 'personal'");
        }
        other => panic!("expected Generic, got {:?}", other),
    }
    match init_github_url(Some("https".to_string()), Some("org".to_string()), None) {
        Err(BasecampError::Generic(m)) => {
            assert_eq!(m, "In non-interactive mode, name must be provided");
        }
        other => panic!("expected Generic, got {:?}", other),
    }
}
