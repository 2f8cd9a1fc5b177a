//! BaseCamp: manages named collections of git repositories ("codebases") and
//! acquires a whole codebase as one batch.
//!
//! The crate centres on the repository-acquisition engine: a job queue that
//! hands each repository to exactly one worker, a clone executor that
//! classifies every job as already-present, cloned or failed, a credential
//! resolver that picks one authentication candidate per attempt, a result
//! aggregator that partitions the batch into three buckets, and a rollback
//! step that drops failed entries from the configuration again.

pub mod batch;
pub mod config;
pub mod credentials;
pub mod error;
pub mod git;
pub mod install;
pub mod queue;
pub mod rollback;
pub mod safety;
pub mod text;

pub use error::BasecampError;
pub use error::BasecampResult;
