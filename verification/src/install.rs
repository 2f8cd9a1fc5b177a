//! The batch-acquisition engine: the clone executor that settles one job, the
//! worker pool that drains the job queue and aggregates the outcomes, and the
//! `install_batch` entry point that turns a codebase's repository names into
//! jobs and runs them.
//!
//! The engine here processes jobs one at a time; a caller that wants real
//! parallelism spawns `effective_parallelism(parallelism, jobs)` workers, each
//! looping over the same shared `JobQueue` and `ResultAggregator`, and reads
//! the batch result only after every worker has joined. Either way each job is
//! taken exactly once and recorded exactly once.

use vstd::prelude::*;
use vstd::string::StringExecFns;

use crate::batch::batch_covers;
use crate::batch::is_aggregate_of;
use crate::batch::BatchResult;
use crate::batch::JobOutcome;
use crate::batch::ResultAggregator;
use crate::config::assoc_contains;
use crate::config::assoc_get;
use crate::config::assoc_keys;
use crate::config::lemma_assoc_contains_index;
use crate::config::Config;
use crate::credentials::infer_username;
use crate::credentials::KeyCandidate;
use crate::error::BasecampError;
use crate::error::BasecampResult;
use crate::git::auth_callbacks;
use crate::git::git_clone;
use crate::git::path_exists;
use crate::git::spec_repo_path;
use crate::git::spec_repo_url;
use crate::git::GitRepo;
use crate::queue::JobQueue;
use crate::text::seq_views;
use crate::text::spec_join;
use crate::text::join_with;

verus! {

/// One repository-acquisition unit of work. Immutable once enqueued.
#[derive(Debug)]
pub struct RepoJob {
    /// The codebase the repository belongs to.
    pub codebase: String,
    /// The repository name.
    pub name: String,
    /// The remote URL to clone from.
    pub remote_url: String,
    /// The local path to clone into.
    pub local_path: String,
}

/// The names of a job list, in order.
pub open spec fn job_names(jobs: Seq<RepoJob>) -> Seq<Seq<char>> {
    jobs.map_values(|j: RepoJob| j.name@)
}

/// How many workers a pool spawns: the requested parallelism clamped to
/// `[1, job_count]` — never more workers than jobs, and at least one.
pub fn effective_parallelism(parallelism: usize, job_count: usize) -> (r: usize)
    ensures
        r >= 1,
        job_count >= 1 ==> r <= job_count,
        parallelism >= 1 && job_count >= 1 ==> r == if parallelism <= job_count {
            parallelism
        } else {
            job_count
        },
        parallelism == 0 || job_count == 0 ==> r == 1,
{
    let clamped: usize = if parallelism <= job_count {
        parallelism
    } else {
        job_count
    };
    if clamped == 0 {
        1
    } else {
        clamped
    }
}

/// Performs one repository acquisition: a local-existence probe, then — only
/// when nothing is there yet — one transport clone under the credential
/// resolver backed by these key candidates.
pub struct CloneExecutor {
    /// The SSH key candidates the resolver may offer.
    pub keys: Vec<KeyCandidate>,
}

impl CloneExecutor {
    /// Classifies one acquisition: a job whose local path was present is
    /// `AlreadyPresent` (nothing was fetched); otherwise the transport's
    /// outcome decides, and a failure keeps the transport's message as the
    /// reason.
    pub fn classify(present: bool, transport: Result<(), String>) -> (r: JobOutcome)
        ensures
            present ==> r is AlreadyPresent,
            !present && transport is Ok ==> r is Cloned,
            !present ==> (transport matches Err(m) ==> r matches JobOutcome::Failed(reason)
                && reason@ == m@),
    {
        if present {
            JobOutcome::AlreadyPresent
        } else {
            match transport {
                Ok(()) => JobOutcome::Cloned,
                Err(message) => JobOutcome::Failed(message),
            }
        }
    }

    /// Executes one job: probes the local path, clones when nothing is there,
    /// and classifies. The probe and the transport answer for the outcome, so
    /// nothing more than the classification shape is promised; a failure never
    /// escapes as anything but a `Failed` outcome.
    pub fn execute(&self, job: &RepoJob) -> (r: JobOutcome) {
        let present = path_exists(job.local_path.as_str());
        if present {
            return CloneExecutor::classify(true, Ok(()));
        }
        let username = infer_username(job.remote_url.as_str());
        let cbs = auth_callbacks(username, self.keys.clone());
        let transport = git_clone(job.remote_url.as_str(), job.local_path.as_str(), cbs);
        CloneExecutor::classify(false, transport)
    }
}

/// The worker pool: drains the queue, executes, aggregates, and joins.
pub struct WorkerPool;

impl WorkerPool {
    /// Runs every job to completion: each job index is taken from the queue
    /// exactly once, executed exactly once, and recorded exactly once; the
    /// result is returned only when no job is left. The result aggregates one
    /// outcome per job, in order.
    pub fn run(executor: &CloneExecutor, jobs: &Vec<RepoJob>, parallelism: usize) -> (r:
        BatchResult)
        ensures
            batch_covers(r, job_names(jobs@)),
    {
        // The pool size; every worker drives the loop below over the shared
        // queue and aggregator, and here the workers take their turns in one
        // thread of control.
        let _workers = effective_parallelism(parallelism, jobs.len());
        let n: usize = jobs.len();
        let mut queue = JobQueue::new(n);
        let mut agg = ResultAggregator::new();
        let mut k: usize = 0;
        while k < n
            invariant
                k <= n,
                n == jobs@.len(),
                queue@ =~= Seq::new((n - k) as nat, |t: int| (k + t) as usize),
                agg@.0 =~= job_names(jobs@).take(k as int),
                agg@.1.len() == k,
            decreases n - k,
        {
            let next = queue.take_next();
            let i: usize = match next {
                Some(i) => i,
                None => {
                    proof {
                        assert(false);
                    }
                    0
                },
            };
            assert(i == k);
            let outcome = executor.execute(&jobs[i]);
            let ghost agg0 = agg@;
            agg.record(jobs[i].name.clone(), outcome);
            proof {
                assert(queue@ =~= Seq::new((n - (k + 1)) as nat, |t: int| (k + 1 + t) as usize));
                assert(agg@.0 =~= job_names(jobs@).take(k + 1)) by {
                    assert(job_names(jobs@).take(k + 1).drop_last() =~= job_names(jobs@).take(
                        k as int,
                    ));
                    assert(job_names(jobs@).take(k + 1).last() == jobs@[k as int].name@);
                    assert(agg@.0 =~= agg0.0.push(jobs@[k as int].name@));
                }
            }
            k = k + 1;
        }
        assert(job_names(jobs@).take(n as int) =~= job_names(jobs@));
        let ghost outs = agg@.1;
        let r = agg.finalize();
        assert(is_aggregate_of(r, job_names(jobs@), outs));
        r
    }
}

/// Builds one job per repository name: the remote URL under `remote_base_url`
/// and the local path under the codebase directory.
pub fn build_jobs(codebase: &str, repository_names: &Vec<String>, remote_base_url: &str) -> (jobs:
    Vec<RepoJob>)
    ensures
        jobs@.len() == repository_names@.len(),
        forall|i: int|
            0 <= i < jobs@.len() ==> {
                &&& (#[trigger] jobs@[i]).codebase@ == codebase@
                &&& jobs@[i].name@ == repository_names@[i]@
                &&& jobs@[i].remote_url@ == spec_repo_url(
                    remote_base_url@,
                    repository_names@[i]@,
                )
                &&& jobs@[i].local_path@ == spec_repo_path(codebase@, repository_names@[i]@)
            },
        job_names(jobs@) =~= seq_views(repository_names@),
{
    let n: usize = repository_names.len();
    let mut jobs: Vec<RepoJob> = Vec::new();
    let mut i: usize = 0;
    while i < n
        invariant
            i <= n,
            n == repository_names@.len(),
            jobs@.len() == i,
            forall|j: int|
                0 <= j < i ==> {
                    &&& (#[trigger] jobs@[j]).codebase@ == codebase@
                    &&& jobs@[j].name@ == repository_names@[j]@
                    &&& jobs@[j].remote_url@ == spec_repo_url(
                        remote_base_url@,
                        repository_names@[j]@,
                    )
                    &&& jobs@[j].local_path@ == spec_repo_path(codebase@, repository_names@[j]@)
                },
        decreases n - i,
    {
        let name = &repository_names[i];
        let job = RepoJob {
            codebase: String::from_str(codebase),
            name: name.clone(),
            remote_url: GitRepo::build_repo_url(remote_base_url, name.as_str()),
            local_path: GitRepo::get_repo_path(codebase, name.as_str()),
        };
        jobs.push(job);
        i = i + 1;
    }
    jobs
}

/// The single entry point of the acquisition engine: one job per repository
/// name, run to completion, every name reconciled into exactly one bucket of
/// the returned batch.
pub fn install_batch(
    codebase: &str,
    repository_names: &Vec<String>,
    remote_base_url: &str,
    parallelism: usize,
    keys: &Vec<KeyCandidate>,
) -> (r: BatchResult)
    ensures
        batch_covers(r, seq_views(repository_names@)),
{
    let jobs = build_jobs(codebase, repository_names, remote_base_url);
    let executor = CloneExecutor { keys: keys.clone() };
    let r = WorkerPool::run(&executor, &jobs, parallelism);
    assert(job_names(jobs@) == seq_views(repository_names@));
    r
}

/// Whether the finished batch failed as a whole: any failed repository makes
/// the whole batch a failure, reported as `CommandFailed` carrying the failed
/// names joined by `", "`. A batch without failures is a success, whatever mix
/// of cloned and already-present jobs it held.
pub fn batch_to_result(batch: &BatchResult) -> (r: BasecampResult<()>)
    ensures
        batch.failed@.len() == 0 <==> r is Ok,
        batch.failed@.len() > 0 ==> (r matches Err(BasecampError::CommandFailed(m)) && m@
            == spec_join(batch.failed@.map_values(|p: (String, String)| p.0@), ", "@)),
{
    if batch.failed.len() == 0 {
        return Ok(());
    }
    let names = failed_repositories(batch);
    let joined = join_with(&names, ", ");
    Err(BasecampError::CommandFailed(joined))
}

/// The names of the repositories a batch failed on, in completion order.
pub fn failed_repositories(batch: &BatchResult) -> (r: Vec<String>)
    ensures
        seq_views(r@) =~= batch.failed@.map_values(|p: (String, String)| p.0@),
{
    let mut out: Vec<String> = Vec::new();
    let n: usize = batch.failed.len();
    let mut i: usize = 0;
    while i < n
        invariant
            i <= n,
            n == batch.failed@.len(),
            out@.len() == i,
            seq_views(out@) =~= batch.failed@.map_values(|p: (String, String)| p.0@).take(i as int),
        decreases n - i,
    {
        let ghost out0 = out@;
        out.push(batch.failed[i].0.clone());
        proof {
            assert(seq_views(out@) =~= seq_views(out0).push(batch.failed@[i as int].0@));
        }
        i = i + 1;
    }
    proof {
        let m = batch.failed@.map_values(|p: (String, String)| p.0@);
        assert(m.take(n as int) =~= m);
    }
    out
}

/// The install command for one codebase: look its repositories up and run the
/// batch. `GitHubUrlNotConfigured` when no remote base URL is set,
/// `CodebaseNotFound` when the codebase is absent; otherwise the full batch
/// result, one bucket entry per listed repository.
pub fn install_codebase(
    config: &Config,
    codebase: &str,
    parallelism: usize,
    keys: &Vec<KeyCandidate>,
) -> (r: BasecampResult<BatchResult>)
    ensures
        config.git_config.github_url@.len() == 0 ==> (r matches Err(e)
            && e is GitHubUrlNotConfigured),
        config.git_config.github_url@.len() != 0 && !assoc_contains(
            config.codebases_config.codebases@,
            codebase@,
        ) ==> (r matches Err(BasecampError::CodebaseNotFound(n)) && n@ == codebase@),
        config.git_config.github_url@.len() != 0 && assoc_contains(
            config.codebases_config.codebases@,
            codebase@,
        ) ==> (r matches Ok(b) && batch_covers(
            b,
            assoc_get(config.codebases_config.codebases@, codebase@),
        )),
{
    if !config.has_github_url() {
        return Err(BasecampError::GitHubUrlNotConfigured);
    }
    let repos = match config.get_repositories(codebase) {
        Ok(repos) => repos,
        Err(e) => {
            return Err(e);
        },
    };
    let batch = install_batch(
        codebase,
        repos,
        config.git_config.github_url.as_str(),
        parallelism,
        keys,
    );
    Ok(batch)
}

/// The install command over every codebase, in configuration order: one batch
/// result per codebase, each over that codebase's repository list. A failed
/// repository never aborts its siblings: every codebase is still run.
pub fn install_all_codebases(config: &Config, parallelism: usize, keys: &Vec<KeyCandidate>) -> (r:
    BasecampResult<Vec<BatchResult>>)
    ensures
        config.git_config.github_url@.len() == 0 <==> (r matches Err(e)
            && e is GitHubUrlNotConfigured),
        config.git_config.github_url@.len() != 0 ==> r is Ok,
        r matches Ok(batches) ==> {
            &&& batches@.len() == config.codebases_config.codebases@.len()
            &&& forall|i: int|
                0 <= i < batches@.len() ==> batch_covers(
                    #[trigger] batches@[i],
                    assoc_get(
                        config.codebases_config.codebases@,
                        assoc_keys(config.codebases_config.codebases@)[i],
                    ),
                )
        },
{
    if !config.has_github_url() {
        return Err(BasecampError::GitHubUrlNotConfigured);
    }
    let ghost m = config.codebases_config.codebases@;
    let names = config.list_codebases();
    let n: usize = names.len();
    assert(n == m.len());
    let mut batches: Vec<BatchResult> = Vec::new();
    let mut i: usize = 0;
    while i < n
        invariant
            i <= n,
            n == names@.len(),
            n == m.len(),
            m == config.codebases_config.codebases@,
            config.git_config.github_url@.len() != 0,
            seq_views(names@) == assoc_keys(m),
            batches@.len() == i,
            forall|j: int|
                0 <= j < i ==> batch_covers(#[trigger] batches@[j], assoc_get(m, assoc_keys(m)[j])),
        decreases n - i,
    {
        proof {
            assert(seq_views(names@)[i as int] == names@[i as int]@);
            assert(assoc_keys(m)[i as int] == m[i as int].0);
            assert(names@[i as int]@ == m[i as int].0);
            lemma_assoc_contains_index(m, m[i as int].0);
        }
        assert(assoc_contains(m, names@[i as int]@));
        let repos = match config.get_repositories(names[i].as_str()) {
            Ok(repos) => repos,
            Err(e) => {
                proof {
                    assert(false);
                }
                return Err(e);
            },
        };
        let batch = install_batch(
            names[i].as_str(),
            repos,
            config.git_config.github_url.as_str(),
            parallelism,
            keys,
        );
        batches.push(batch);
        i = i + 1;
    }
    Ok(batches)
}

} // verus!
