//! Safety checks before a removal: a repository that still has uncommitted
//! changes or unpushed commits must not be removed from disk unless the caller
//! forces it.

use vstd::prelude::*;

use crate::error::BasecampError;
use crate::error::BasecampResult;
use crate::git::path_exists;
use crate::git::spec_repo_path;
use crate::git::GitRepo;

verus! {

/// Every path in `v` is the local path of one of the repositories of
/// `codebase` listed in `repos`.
pub open spec fn paths_under(codebase: Seq<char>, repos: Seq<String>, v: Seq<String>) -> bool {
    forall|t: int|
        0 <= t < v.len() ==> exists|j: int|
            0 <= j < repos.len() && (#[trigger] v[t])@ == spec_repo_path(codebase, repos[j]@)
}

/// Walks the repositories of `codebase` and returns the local paths of those
/// found on disk — the ones whose directories a removal would delete. Unless
/// `force` is set, a repository with uncommitted changes or unpushed commits
/// stops the walk with the matching error, so nothing is removed over pending
/// work; with `force` set nothing is checked and nothing can fail.
pub fn removal_guard(codebase: &str, repos: &[String], force: bool) -> (r: BasecampResult<
    Vec<String>,
>)
    ensures
        force ==> r is Ok,
        repos@.len() == 0 ==> r is Ok,
        r matches Err(e) ==> (e is UncommittedChanges || e is UnpushedCommits || e is GitError),
        r matches Err(BasecampError::UncommittedChanges(p)) ==> exists|j: int|
            0 <= j < repos@.len() && p@ == spec_repo_path(codebase@, repos@[j]@),
        r matches Err(BasecampError::UnpushedCommits(p)) ==> exists|j: int|
            0 <= j < repos@.len() && p@ == spec_repo_path(codebase@, repos@[j]@),
        r matches Ok(v) ==> paths_under(codebase@, repos@, v@),
{
    let mut on_disk: Vec<String> = Vec::new();
    let n: usize = repos.len();
    let mut i: usize = 0;
    while i < n
        invariant
            i <= n,
            n == repos@.len(),
            paths_under(codebase@, repos@, on_disk@),
        decreases n - i,
    {
        let path = GitRepo::get_repo_path(codebase, repos[i].as_str());
        if path_exists(path.as_str()) {
            if !force {
                match GitRepo::has_uncommitted_changes(path.as_str()) {
                    Ok(true) => {
                        assert(path@ == spec_repo_path(codebase@, repos@[i as int]@));
                        return Err(BasecampError::UncommittedChanges(path));
                    },
                    Ok(false) => {},
                    Err(e) => {
                        return Err(e);
                    },
                }
                match GitRepo::has_unpushed_commits(path.as_str()) {
                    Ok(true) => {
                        assert(path@ == spec_repo_path(codebase@, repos@[i as int]@));
                        return Err(BasecampError::UnpushedCommits(path));
                    },
                    Ok(false) => {},
                    Err(e) => {
                        return Err(e);
                    },
                }
            }
            let ghost d0 = on_disk@;
            on_disk.push(path);
            proof {
                assert(paths_under(codebase@, repos@, on_disk@)) by {
                    assert forall|t: int| 0 <= t < on_disk@.len() implies exists|j: int|
                        0 <= j < repos@.len() && (#[trigger] on_disk@[t])@ == spec_repo_path(
                            codebase@,
                            repos@[j]@,
                        ) by {
                        if t < d0.len() {
                            assert(on_disk@[t] == d0[t]);
                        } else {
                            assert(0 <= i < repos@.len() && on_disk@[t]@ == spec_repo_path(
                                codebase@,
                                repos@[i as int]@,
                            ));
                        }
                    }
                }
            }
        }
        i = i + 1;
    }
    Ok(on_disk)
}

} // verus!
