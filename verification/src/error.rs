//! Error taxonomy of the library.
//!
//! Every variant carries plain strings, so that verified code can state
//! exactly which error a function returns and on which inputs.

use vstd::prelude::*;

verus! {

/// The errors the library reports.
///
/// `GitError` carries the message of the transport layer, `IoError` and
/// `YamlError` the messages of the configuration store; the remaining
/// variants are the library's own policy errors.
#[derive(Debug, Clone, PartialEq)]
pub enum BasecampError {
    /// A git transport or repository operation failed; the payload is its message.
    GitError(String),
    /// A filesystem operation of the configuration store failed.
    IoError(String),
    /// Configuration text could not be encoded or decoded.
    YamlError(String),
    /// The repository (first payload) is not listed in the codebase (second payload).
    RepositoryNotFound(String, String),
    /// No codebase of that name exists in the configuration.
    CodebaseNotFound(String),
    /// A configuration file is absent; the payload is its path.
    FileNotFound(String),
    /// The repository at the given path has uncommitted changes.
    UncommittedChanges(String),
    /// The repository at the given path has unpushed commits.
    UnpushedCommits(String),
    /// No remote base URL has been configured yet.
    GitHubUrlNotConfigured,
    /// The given remote base URL has an unsupported form.
    InvalidGitHubUrl(String),
    /// A compound command failed; the payload describes which part.
    CommandFailed(String),
    /// Any other error, described by its payload.
    Generic(String),
}

/// Result type used throughout the library.
pub type BasecampResult<T> = Result<T, BasecampError>;

} // verus!
