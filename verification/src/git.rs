//! Git operations: building remote URLs and local paths, cloning one
//! repository with credential negotiation, and reading a repository's safety
//! state (uncommitted changes, unpushed commits).
//!
//! Everything that touches the network or the repository on disk goes through
//! a small set of trusted wrappers around git2; the decisions around those
//! calls are verified.

use vstd::prelude::*;
use vstd::string::StringExecFns;

use core::cell::Cell;
use std::path::Path;

use git2::build::RepoBuilder;
use git2::BranchType;
use git2::Cred;
use git2::CredentialType;
use git2::FetchOptions;
use git2::RemoteCallbacks;
use git2::Repository;
use git2::StatusOptions;

use crate::credentials::infer_username;
use crate::credentials::resolve;
use crate::credentials::CredentialChoice;
use crate::credentials::KeyCandidate;
use crate::error::BasecampError;
use crate::error::BasecampResult;
use crate::text::bytes_equal;
use crate::text::ends_with_char;
use crate::text::count_char;
use crate::text::spec_count_char;
use crate::text::spec_starts_with;
use crate::text::starts_with;

verus! {

/// git2's repository handle; opaque to the library, carried between wrappers.
#[verifier::external_type_specification]
#[verifier::external_body]
pub struct ExRepository(Repository);

/// git2's remote-callback set; opaque to the library, carried from the
/// callback builder into the clone call.
#[verifier::external_type_specification]
#[verifier::external_body]
pub struct ExRemoteCallbacks<'a>(RemoteCallbacks<'a>);

/// Relies on std::path::Path::exists: whether `path` names anything on disk.
/// The disk can change between calls, so nothing is promised of the answer.
#[verifier::external_body]
pub(crate) fn path_exists(path: &str) -> bool {
    Path::new(path).exists()
}

/// Relies on git2::RemoteCallbacks::credentials and git2::Cred: builds the
/// callback set that answers the transport's credential requests. Each request
/// advances an attempt counter and asks the verified resolver policy
/// (`credentials::resolve`) what to offer; the chosen candidate is converted
/// into a git2 credential, an exhausted resolver into an error that stops the
/// transport. A failing agent lookup falls back to the default credential so
/// the transport can ask again.
#[verifier::external_body]
pub(crate) fn auth_callbacks(username: String, keys: Vec<KeyCandidate>) -> RemoteCallbacks<
    'static,
> {
    let attempt = Cell::new(0u64);
    let mut cbs = RemoteCallbacks::new();
    cbs.credentials(move |_url, user_from_url, allowed| {
        let a = attempt.get();
        attempt.set(a.saturating_add(1));
        let user = user_from_url.unwrap_or(username.as_str());
        let plain = allowed.contains(CredentialType::USER_PASS_PLAINTEXT);
        match resolve(a, plain, keys.len()) {
            CredentialChoice::UserPassDefault => Cred::default(),
            CredentialChoice::SshAgent => Cred::ssh_key_from_agent(user).or_else(|_| Cred::default()),
            CredentialChoice::SshKey(i) => Cred::ssh_key(user, keys[i].pub_key_path.as_deref().map(Path::new), Path::new(&keys[i].key_path), None),
            CredentialChoice::Exhausted => Err(git2::Error::from_str("credential attempts exhausted")),
        }
    });
    cbs
}

/// Relies on git2::build::RepoBuilder::clone with git2::FetchOptions: clones
/// `url` into `path` (libgit2 creates the directory path itself), asking `cbs`
/// for credentials. The outcome depends on the network and the disk, so
/// nothing is promised beyond the error message being passed through.
#[verifier::external_body]
pub(crate) fn git_clone(url: &str, path: &str, cbs: RemoteCallbacks<'static>) -> Result<
    (),
    String,
> {
    let mut fetch = FetchOptions::new();
    fetch.remote_callbacks(cbs);
    let mut builder = RepoBuilder::new();
    builder.fetch_options(fetch);
    match builder.clone(url, Path::new(path)) {
        Ok(_) => Ok(()),
        Err(e) => Err(e.message().to_string()),
    }
}

/// Relies on git2::Repository::open: opens the repository at `path`; the error
/// message is passed through.
#[verifier::external_body]
pub(crate) fn repo_open(path: &str) -> Result<Repository, String> {
    Repository::open(Path::new(path)).map_err(|e| e.message().to_string())
}

/// Relies on git2::Repository::statuses with untracked files included: whether
/// the work tree reports no pending status entry. The answer depends on the
/// disk, so nothing is promised of it.
#[verifier::external_body]
pub(crate) fn repo_status_is_empty(repo: &Repository) -> Result<bool, String> {
    let mut opts = StatusOptions::new();
    opts.include_untracked(true);
    match repo.statuses(Some(&mut opts)) {
        Ok(statuses) => Ok(statuses.is_empty()),
        Err(e) => Err(e.message().to_string()),
    }
}

/// Relies on git2::Repository::head, Repository::find_branch and
/// Reference::peel_to_commit: the commit id bytes of the local head, paired
/// with those of its `origin/<branch>` remote-tracking branch, or `None` when
/// no such branch exists. The answer depends on the repository on disk, so
/// nothing is promised of it.
#[verifier::external_body]
pub(crate) fn repo_head_ids(repo: &Repository) -> Result<(Vec<u8>, Option<Vec<u8>>), String> {
    let head = repo.head().map_err(|e| e.message().to_string())?;
    let branch = head.shorthand().unwrap_or("HEAD").to_string();
    let local = head.peel_to_commit().map_err(|e| e.message().to_string())?.id();
    let remote = match repo.find_branch(&format!("origin/{}", branch), BranchType::Remote) {
        Ok(b) => match b.get().peel_to_commit() {
            Ok(c) => Some(c.id().as_bytes().to_vec()),
            Err(e) => return Err(e.message().to_string()),
        },
        Err(_) => None,
    };
    Ok((local.as_bytes().to_vec(), remote))
}

/// Git repository operations.
pub struct GitRepo;

/// A base URL under which the repository name is appended directly (with a
/// separating `/` only where the base has none): an HTTPS URL, or an SSH-style
/// `host:path` URL with exactly one colon. Any other base falls back to
/// always inserting a `/`.
pub open spec fn url_joins_plain(base: Seq<char>) -> bool {
    spec_starts_with(base, "https://"@) || (spec_starts_with(base, "git@"@) && spec_count_char(
        base,
        ':',
    ) == 1)
}

/// The remote URL of repository `name` under `base`: the base, a `/` unless a
/// recognised base already ends with one, the name, and `.git`.
pub open spec fn spec_repo_url(base: Seq<char>, name: Seq<char>) -> Seq<char> {
    if url_joins_plain(base) && base.len() > 0 && base.last() == '/' {
        base + name + ".git"@
    } else {
        base + "/"@ + name + ".git"@
    }
}

/// The local path of repository `repo_name` of codebase `codebase`.
pub open spec fn spec_repo_path(codebase: Seq<char>, repo_name: Seq<char>) -> Seq<char> {
    codebase + "/"@ + repo_name
}

impl GitRepo {
    /// Builds the remote URL for `repo_name` under the base `github_url`.
    pub fn build_repo_url(github_url: &str, repo_name: &str) -> (r: String)
        ensures
            r@ == spec_repo_url(github_url@, repo_name@),
    {
        let https = starts_with(github_url, "https://");
        let ssh = starts_with(github_url, "git@") && count_char(github_url, ':') == 1;
        let mut out = String::from_str(github_url);
        if !((https || ssh) && ends_with_char(github_url, '/')) {
            out.append("/");
        }
        out.append(repo_name);
        out.append(".git");
        out
    }

    /// The local path of repository `repo_name` of codebase `codebase`.
    pub fn get_repo_path(codebase: &str, repo_name: &str) -> (r: String)
        ensures
            r@ == spec_repo_path(codebase@, repo_name@),
    {
        let mut out = String::from_str(codebase);
        out.append("/");
        out.append(repo_name);
        out
    }

    /// Clones `url` into `path`, negotiating credentials from the SSH key
    /// candidates in `keys`. The transport decides the outcome; every failure
    /// comes back as `GitError` carrying the transport's message.
    pub fn clone(url: &str, path: &str, keys: &Vec<KeyCandidate>) -> (r: BasecampResult<()>)
        ensures
            r is Ok || (r matches Err(e) && e is GitError),
    {
        let username = infer_username(url);
        let cbs = auth_callbacks(username, keys.clone());
        match git_clone(url, path, cbs) {
            Ok(()) => Ok(()),
            Err(message) => Err(BasecampError::GitError(message)),
        }
    }

    /// Whether the two commit ids differ, `None` standing for "no remote
    /// branch to compare with" and so never a difference.
    pub fn ids_differ(local: &Vec<u8>, remote: &Option<Vec<u8>>) -> (r: bool)
        ensures
            r == match remote {
                Some(rid) => local@ != rid@,
                None => false,
            },
    {
        match remote {
            Some(rid) => !bytes_equal(local, rid),
            None => false,
        }
    }

    /// Whether the repository at `repo_path` has uncommitted changes
    /// (untracked files included): true exactly when its status list is
    /// non-empty. Every repository error comes back as `GitError`.
    pub fn has_uncommitted_changes(repo_path: &str) -> (r: BasecampResult<bool>)
        ensures
            r is Ok || (r matches Err(e) && e is GitError),
    {
        let repo = match repo_open(repo_path) {
            Ok(repo) => repo,
            Err(message) => {
                return Err(BasecampError::GitError(message));
            },
        };
        match repo_status_is_empty(&repo) {
            Ok(empty) => Ok(!empty),
            Err(message) => Err(BasecampError::GitError(message)),
        }
    }

    /// Whether the repository at `repo_path` has commits its remote-tracking
    /// branch lacks: true exactly when a remote-tracking branch exists and its
    /// commit id differs from the local head. Every repository error comes
    /// back as `GitError`.
    pub fn has_unpushed_commits(repo_path: &str) -> (r: BasecampResult<bool>)
        ensures
            r is Ok || (r matches Err(e) && e is GitError),
    {
        let repo = match repo_open(repo_path) {
            Ok(repo) => repo,
            Err(message) => {
                return Err(BasecampError::GitError(message));
            },
        };
        match repo_head_ids(&repo) {
            Ok((local, remote)) => Ok(GitRepo::ids_differ(&local, &remote)),
            Err(message) => Err(BasecampError::GitError(message)),
        }
    }
}

} // verus!
