use basecamp::batch::JobOutcome;
use basecamp::credentials::resolve;
use basecamp::credentials::CredentialChoice;
use basecamp::credentials::MAX_ATTEMPTS;
use basecamp::error::BasecampError;
use basecamp::git::GitRepo;
use basecamp::install::CloneExecutor;

#[test]
fn test_resolver_prefers_plain_user_pass() {
    assert_eq!(resolve(0, true, 4), CredentialChoice::UserPassDefault);
    assert_eq!(resolve(3, true, 0), CredentialChoice::UserPassDefault);
}

#[test]
fn test_resolver_agent_then_keys_in_turn() {
    assert_eq!(resolve(0, false, 3), CredentialChoice::SshAgent);
    assert_eq!(resolve(1, false, 3), CredentialChoice::SshKey(0));
    assert_eq!(resolve(2, false, 3), CredentialChoice::SshKey(1));
    assert_eq!(resolve(3, false, 3), CredentialChoice::SshKey(2));
    assert_eq!(resolve(4, false, 3), CredentialChoice::SshKey(0));
}

#[test]
fn test_resolver_terminates_by_sixth_attempt() {
    // With zero available keys the resolver is exhausted by attempt index 6 at
    // the latest, whatever the transport keeps asking.
    assert_eq!(resolve(1, false, 0), CredentialChoice::Exhausted);
    assert_eq!(resolve(5, false, 0), CredentialChoice::Exhausted);
    assert_eq!(resolve(MAX_ATTEMPTS, false, 0), CredentialChoice::Exhausted);
    assert_eq!(resolve(MAX_ATTEMPTS, true, 9), CredentialChoice::Exhausted);
    assert_eq!(resolve(7, false, 9), CredentialChoice::Exhausted);
    assert_eq!(resolve(u64::MAX, true, 9), CredentialChoice::Exhausted);
}

#[test]
fn test_classify_outcomes() {
    assert_eq!(
        CloneExecutor::classify(true, Ok(())),
        JobOutcome::AlreadyPresent
    );
    // A present path never consults the transport outcome.
    assert_eq!(
        CloneExecutor::classify(true, Err("ignored".to_string())),
        JobOutcome::AlreadyPresent
    );
    assert_eq!(CloneExecutor::classify(false, Ok(())), JobOutcome::Cloned);
    assert_eq!(
        CloneExecutor::classify(false, Err("remote not found".to_string())),
        JobOutcome::Failed("remote not found".to_string())
    );
}

#[test]
fn test_repository_checks_report_git_errors() {
    // No repository lives at this path: both checks surface the git2 message.
    match GitRepo::has_uncommitted_changes("frontend/no-such-repository") {
        Err(BasecampError::GitError(m)) => assert!(!m.is_empty()),
        other => panic!("expected GitError, got {:?}", other),
    }
    match GitRepo::has_unpushed_commits("frontend/no-such-repository") {
        Err(BasecampError::GitError(m)) => assert!(!m.is_empty()),
        other => panic!("expected GitError, got {:?}", other),
    }
}

#[test]
fn test_ids_differ() {
    let local = vec![1u8, 2, 3];
    assert!(!GitRepo::ids_differ(&local, &None));
    assert!(!GitRepo::ids_differ(&local, &Some(vec![1u8, 2, 3])));
    assert!(GitRepo::ids_differ(&local, &Some(vec![1u8, 2, 4])));
}
