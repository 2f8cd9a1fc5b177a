use basecamp::batch::JobOutcome;
use basecamp::batch::ResultAggregator;
use basecamp::error::BasecampError;
use basecamp::install::batch_to_result;
use basecamp::install::build_jobs;
use basecamp::install::effective_parallelism;
use basecamp::install::failed_repositories;
use basecamp::queue::JobQueue;

#[test]
fn test_partition_counts() {
    let mut agg = ResultAggregator::new();
    agg.record("a".to_string(), JobOutcome::Cloned);
    agg.record("b".to_string(), JobOutcome::AlreadyPresent);
    agg.record("c".to_string(), JobOutcome::Failed("no remote".to_string()));
    agg.record("d".to_string(), JobOutcome::Cloned);
    let batch = agg.finalize();
    assert_eq!(batch.total, 4);
    assert_eq!(
        batch.succeeded.len() + batch.already_present.len() + batch.failed.len(),
        batch.total
    );
    assert_eq!(batch.succeeded, vec!["a".to_string(), "d".to_string()]);
    assert_eq!(batch.already_present, vec!["b".to_string()]);
    assert_eq!(
        batch.failed,
        vec![("c".to_string(), "no remote".to_string())]
    );
}

#[test]
fn test_second_run_all_already_present() {
    // The second of two identical runs: every probe finds the path.
    let mut agg = ResultAggregator::new();
    agg.record("ui".to_string(), JobOutcome::AlreadyPresent);
    agg.record("api".to_string(), JobOutcome::AlreadyPresent);
    let batch = agg.finalize();
    assert_eq!(batch.already_present.len(), batch.total);
    assert_eq!(batch.succeeded.len(), 0);
    assert_eq!(batch.failed.len(), 0);
}

#[test]
fn test_scenario_both_already_present() {
    // Codebase "frontend" with repos ["ui", "api"], both already on disk.
    let mut agg = ResultAggregator::new();
    agg.record("ui".to_string(), JobOutcome::AlreadyPresent);
    agg.record("api".to_string(), JobOutcome::AlreadyPresent);
    let batch = agg.finalize();
    assert_eq!(batch.total, 2);
    assert_eq!(batch.succeeded, Vec::<String>::new());
    assert_eq!(batch.already_present, vec!["ui".to_string(), "api".to_string()]);
    assert_eq!(batch.failed, Vec::<(String, String)>::new());
    assert!(batch_to_result(&batch).is_ok());
}

#[test]
fn test_scenario_one_missing_remote() {
    // Codebase "x" with repos ["good", "bad"]; "bad"'s remote does not exist.
    let mut agg = ResultAggregator::new();
    agg.record("good".to_string(), JobOutcome::Cloned);
    agg.record(
        "bad".to_string(),
        JobOutcome::Failed("remote not found".to_string()),
    );
    let batch = agg.finalize();
    assert_eq!(batch.total, 2);
    assert_eq!(batch.succeeded, vec!["good".to_string()]);
    assert_eq!(batch.already_present, Vec::<String>::new());
    assert_eq!(batch.failed.len(), 1);
    assert_eq!(batch.failed[0].0, "bad".to_string());
    // The batch as a whole is a failure.
    match batch_to_result(&batch) {
        Err(BasecampError::CommandFailed(m)) => assert_eq!(m, "bad".to_string()),
        other => panic!("expected CommandFailed, got {:?}", other),
    }
    assert_eq!(failed_repositories(&batch), vec!["bad".to_string()]);
}

#[test]
fn test_parallelism_clamp() {
    // Requesting 100 workers for a 3-job batch spawns at most 3.
    assert_eq!(effective_parallelism(100, 3), 3);
    assert_eq!(effective_parallelism(2, 3), 2);
    assert_eq!(effective_parallelism(0, 3), 1);
    assert_eq!(effective_parallelism(4, 0), 1);
    assert_eq!(effective_parallelism(3, 3), 3);
}

#[test]
fn test_queue_delivers_each_index_once() {
    // A 3-job batch is processed exactly three times, whatever the pool size.
    let mut queue = JobQueue::new(3);
    assert_eq!(queue.len(), 3);
    assert_eq!(queue.take_next(), Some(0));
    assert_eq!(queue.take_next(), Some(1));
    assert_eq!(queue.take_next(), Some(2));
    assert_eq!(queue.take_next(), None);
    assert_eq!(queue.take_next(), None);
    assert_eq!(queue.len(), 0);
}

#[test]
fn test_build_jobs() {
    let names = vec!["ui".to_string(), "api".to_string()];
    let jobs = build_jobs("frontend", &names, "https://github.com/org");
    assert_eq!(jobs.len(), 2);
    assert_eq!(jobs[0].codebase, "frontend".to_string());
    assert_eq!(jobs[0].name, "ui".to_string());
    assert_eq!(jobs[0].remote_url, "https://github.com/org/ui.git".to_string());
    assert_eq!(jobs[0].local_path, "frontend/ui".to_string());
    assert_eq!(jobs[1].name, "api".to_string());
    assert_eq!(jobs[1].remote_url, "https://github.com/org/api.git".to_string());
    assert_eq!(jobs[1].local_path, "frontend/api".to_string());
}

#[test]
fn test_install_codebase_requires_remote_url() {
    let config = basecamp::config::Config::new();
    let keys: Vec<basecamp::credentials::KeyCandidate> = Vec::new();
    match basecamp::install::install_codebase(&config, "web", 4, &keys) {
        Err(BasecampError::GitHubUrlNotConfigured) => {}
        other => panic!("expected GitHubUrlNotConfigured, got {:?}", other),
    }
}

#[test]
fn test_install_codebase_missing_codebase() {
    let mut config = basecamp::config::Config::new();
    config
        .set_github_url("https://github.com/test-org".to_string())
        .unwrap();
    let keys: Vec<basecamp::credentials::KeyCandidate> = Vec::new();
    match basecamp::install::install_codebase(&config, "web", 4, &keys) {
        Err(BasecampError::CodebaseNotFound(name)) => assert_eq!(name, "web".to_string()),
        other => panic!("expected CodebaseNotFound, got {:?}", other),
    }
}

#[test]
fn test_install_empty_codebase_runs_empty_batch() {
    let mut config = basecamp::config::Config::new();
    config
        .set_github_url("https://github.com/test-org".to_string())
        .unwrap();
    config.add_repositories("web", &[]).unwrap();
    let keys: Vec<basecamp::credentials::KeyCandidate> = Vec::new();
    let batch = basecamp::install::install_codebase(&config, "web", 4, &keys).unwrap();
    assert_eq!(batch.total, 0);
    assert!(batch.succeeded.is_empty());
    assert!(batch.already_present.is_empty());
    assert!(batch.failed.is_empty());
    assert!(batch_to_result(&batch).is_ok());

    let batches = basecamp::install::install_all_codebases(&config, 4, &keys).unwrap();
    assert_eq!(batches.len(), 1);
    assert_eq!(batches[0].total, 0);
}
