//! The rollback coordinator: reconciling a partially failed batch with the
//! persisted configuration.
//!
//! An "add repositories then install them" workflow that could not acquire
//! some repositories must not leave their dangling entries in the
//! configuration: `reconcile` drops exactly the failed names from the
//! codebase's list again, restoring the state the configuration would have had
//! if the failing repositories had never been requested. Persisting the
//! reconciled configuration is the caller's step; a persistence failure is
//! reported, never answered by re-attempting the clones.

use vstd::prelude::*;

use crate::batch::count_occurrences;
use crate::batch::lemma_count_concat;
use crate::batch::lemma_count_positive;
use crate::batch::BatchResult;
use crate::config::assoc_contains;
use crate::config::assoc_get;
use crate::config::assoc_put;
use crate::config::spec_remove_run;
use crate::config::Config;
use crate::error::BasecampError;
use crate::error::BasecampResult;
use crate::install::failed_repositories;
use crate::text::remove_eq;
use crate::text::seq_views;

verus! {

/// Reconciles a batch with the configuration: with no failures the
/// configuration stands untouched; otherwise every failed name is removed from
/// the codebase's repository list, in completion order, and the names removed
/// are returned for the caller to report and persist. A name that is no longer
/// listed stops the walk with `RepositoryNotFound`; removals made before the
/// stop are kept, an explicit inconsistency for the caller to report rather
/// than a silent one.
pub fn reconcile(config: &mut Config, codebase: &str, batch: &BatchResult) -> (r: BasecampResult<
    Vec<String>,
>)
    ensures
        batch.failed@.len() == 0 ==> (r matches Ok(v) && v@.len() == 0
            && final(config).codebases_config.codebases@ =~= old(
            config,
        ).codebases_config.codebases@),
        batch.failed@.len() > 0 && !assoc_contains(
            old(config).codebases_config.codebases@,
            codebase@,
        ) ==> (r matches Err(BasecampError::CodebaseNotFound(n)) && n@ == codebase@
            && final(config).codebases_config.codebases@ =~= old(
            config,
        ).codebases_config.codebases@),
        batch.failed@.len() > 0 && assoc_contains(
            old(config).codebases_config.codebases@,
            codebase@,
        ) ==> ({
            let names = batch.failed@.map_values(|p: (String, String)| p.0@);
            let run = spec_remove_run(
                assoc_get(old(config).codebases_config.codebases@, codebase@),
                names,
            );
            &&& final(config).codebases_config.codebases@ =~= assoc_put(
                old(config).codebases_config.codebases@,
                codebase@,
                run.0,
            )
            &&& (run.1 is None ==> (r matches Ok(v) && seq_views(v@) == names))
            &&& (run.1 matches Some(missing) ==> (r matches Err(
                BasecampError::RepositoryNotFound(rn, cb),
            ) && rn@ == missing && cb@ == codebase@))
        }),
        final(config).git_config.github_url@ == old(config).git_config.github_url@,
{
    if batch.failed.len() == 0 {
        return Ok(Vec::new());
    }
    let names = failed_repositories(batch);
    match config.remove_repositories(codebase, names.as_slice()) {
        Ok(()) => Ok(names),
        Err(e) => Err(e),
    }
}

/// Dropping the strings equal to `x` leaves each other string exactly as often
/// as before, and none equal to `x`.
pub proof fn lemma_remove_eq_count(list: Seq<Seq<char>>, x: Seq<char>, y: Seq<char>)
    ensures
        count_occurrences(remove_eq(list, x), y) == if y == x {
            0nat
        } else {
            count_occurrences(list, y)
        },
    decreases list.len(),
{
    if list.len() > 0 {
        lemma_remove_eq_count(list.drop_last(), x, y);
        let tail: Seq<Seq<char>> = if list.last() == x {
            Seq::empty()
        } else {
            seq![list.last()]
        };
        lemma_count_concat(remove_eq(list.drop_last(), x), tail, y);
        assert(remove_eq(list, x) == remove_eq(list.drop_last(), x) + tail);
        assert(count_occurrences(Seq::<Seq<char>>::empty(), y) == 0);
        assert(count_occurrences(seq![list.last()], y) == if list.last() == y {
            1nat
        } else {
            0nat
        }) by {
            assert(seq![list.last()].drop_last() =~= Seq::<Seq<char>>::empty());
            assert(count_occurrences(Seq::<Seq<char>>::empty(), y) == 0);
        }
        assert(count_occurrences(list, y) == count_occurrences(list.drop_last(), y)
            + if list.last() == y {
            1nat
        } else {
            0nat
        });
    }
}

/// Membership after dropping `x`: everything but `x` stays, `x` goes.
pub proof fn lemma_remove_eq_contains(list: Seq<Seq<char>>, x: Seq<char>)
    ensures
        forall|y: Seq<char>|
            #[trigger] remove_eq(list, x).contains(y) <==> (list.contains(y) && y != x),
{
    assert forall|y: Seq<char>|
        #[trigger] remove_eq(list, x).contains(y) <==> (list.contains(y) && y != x) by {
        lemma_remove_eq_count(list, x, y);
        lemma_count_positive(remove_eq(list, x), y);
        lemma_count_positive(list, y);
    }
}

/// Membership splits at the head of a sequence.
proof fn lemma_contains_split(names: Seq<Seq<char>>, x: Seq<char>)
    requires
        names.len() > 0,
    ensures
        names.contains(x) <==> (names.first() == x || names.drop_first().contains(x)),
{
    if names.contains(x) {
        let i = choose|i: int| 0 <= i < names.len() && names[i] == x;
        if i > 0 {
            assert(names.drop_first()[i - 1] == x);
        }
    }
    if names.drop_first().contains(x) {
        let i = choose|i: int| 0 <= i < names.drop_first().len() && names.drop_first()[i] == x;
        assert(names[i + 1] == x);
    }
}

/// Law (rollback correctness): removing failed names that are each still
/// listed, none twice, never stops early, and the list it reaches holds a name
/// exactly when the original list held it and it was not among the failed
/// ones — the configuration is restored to what it would have been had the
/// failing repositories never been requested.
pub proof fn lemma_rollback_removes_failed(list: Seq<Seq<char>>, names: Seq<Seq<char>>)
    requires
        forall|i: int| 0 <= i < names.len() ==> list.contains(#[trigger] names[i]),
        forall|i: int, j: int| 0 <= i < j < names.len() ==> names[i] != names[j],
    ensures
        spec_remove_run(list, names).1 is None,
        forall|x: Seq<char>|
            #[trigger] spec_remove_run(list, names).0.contains(x) <==> (list.contains(x)
                && !names.contains(x)),
    decreases names.len(),
{
    if names.len() == 0 {
        assert(forall|x: Seq<char>| !names.contains(x));
    } else {
        let head = names.first();
        assert(list.contains(head)) by {
            assert(names[0] == head);
        }
        let rest = names.drop_first();
        let trimmed = remove_eq(list, head);
        lemma_remove_eq_contains(list, head);
        assert(forall|i: int|
            0 <= i < rest.len() ==> trimmed.contains(#[trigger] rest[i])) by {
            assert(forall|i: int| 0 <= i < rest.len() ==> rest[i] == names[i + 1]);
        }
        assert(forall|i: int, j: int|
            0 <= i < j < rest.len() ==> rest[i] != rest[j]) by {
            assert(forall|i: int| 0 <= i < rest.len() ==> rest[i] == names[i + 1]);
        }
        lemma_rollback_removes_failed(trimmed, rest);
        assert(spec_remove_run(list, names) == spec_remove_run(trimmed, rest));
        assert forall|x: Seq<char>|
            #[trigger] spec_remove_run(list, names).0.contains(x) <==> (list.contains(x)
                && !names.contains(x)) by {
            lemma_contains_split(names, x);
        }
    }
}

} // verus!
