//! Job outcomes and their aggregation into a batch result.
//!
//! Every job ends as exactly one of three outcomes; the aggregator files each
//! recorded `(name, outcome)` pair into the bucket of its outcome, and the
//! finished `BatchResult` partitions the batch: the three buckets are
//! mutually exclusive and exhaustive over the recorded names, in recording
//! order. The laws at the end state that partition and the idempotence of a
//! second, unchanged run.

use vstd::prelude::*;

use crate::text::seq_views;

verus! {

/// What became of one repository-acquisition job. Produced exactly once per
/// job and never mutated afterwards.
#[derive(Debug, Clone, PartialEq)]
pub enum JobOutcome {
    /// The local path already existed; nothing was fetched or inspected.
    AlreadyPresent,
    /// The transport cloned the repository.
    Cloned,
    /// The transport failed; the payload is its message.
    Failed(String),
}

/// The reconciliation of a whole batch: every requested name in exactly one
/// bucket, `succeeded.len() + already_present.len() + failed.len() == total`.
#[derive(Debug)]
pub struct BatchResult {
    /// How many jobs the batch held.
    pub total: usize,
    /// Names cloned by this run, in completion order.
    pub succeeded: Vec<String>,
    /// Names whose local path already existed, in completion order.
    pub already_present: Vec<String>,
    /// Names that failed, each with the transport's message, in completion order.
    pub failed: Vec<(String, String)>,
}

/// The views of a sequence of `(name, reason)` pairs.
pub open spec fn pair_views(ps: Seq<(String, String)>) -> Seq<(Seq<char>, Seq<char>)> {
    ps.map_values(|p: (String, String)| (p.0@, p.1@))
}

/// The names of the jobs whose outcome is `Cloned`, in order.
pub open spec fn succeeded_names(names: Seq<Seq<char>>, outs: Seq<JobOutcome>) -> Seq<Seq<char>>
    decreases names.len(),
{
    if names.len() == 0 {
        Seq::empty()
    } else {
        succeeded_names(names.drop_last(), outs.drop_last()) + if outs[names.len() - 1] is Cloned {
            seq![names.last()]
        } else {
            Seq::empty()
        }
    }
}

/// The names of the jobs whose outcome is `AlreadyPresent`, in order.
pub open spec fn already_names(names: Seq<Seq<char>>, outs: Seq<JobOutcome>) -> Seq<Seq<char>>
    decreases names.len(),
{
    if names.len() == 0 {
        Seq::empty()
    } else {
        already_names(names.drop_last(), outs.drop_last()) + if outs[names.len()
            - 1] is AlreadyPresent {
            seq![names.last()]
        } else {
            Seq::empty()
        }
    }
}

/// The `(name, reason)` pairs of the jobs whose outcome is `Failed`, in order.
pub open spec fn failed_pairs(names: Seq<Seq<char>>, outs: Seq<JobOutcome>) -> Seq<
    (Seq<char>, Seq<char>),
>
    decreases names.len(),
{
    if names.len() == 0 {
        Seq::empty()
    } else {
        failed_pairs(names.drop_last(), outs.drop_last()) + match outs[names.len() - 1] {
            JobOutcome::Failed(reason) => seq![(names.last(), reason@)],
            _ => Seq::empty(),
        }
    }
}

/// The names of the jobs whose outcome is `Failed`, in order.
pub open spec fn failed_names(names: Seq<Seq<char>>, outs: Seq<JobOutcome>) -> Seq<Seq<char>>
    decreases names.len(),
{
    if names.len() == 0 {
        Seq::empty()
    } else {
        failed_names(names.drop_last(), outs.drop_last()) + if outs[names.len() - 1] is Failed {
            seq![names.last()]
        } else {
            Seq::empty()
        }
    }
}

/// `r` is the aggregation of the jobs `names` under the outcomes `outs`.
pub open spec fn is_aggregate_of(
    r: BatchResult,
    names: Seq<Seq<char>>,
    outs: Seq<JobOutcome>,
) -> bool {
    &&& outs.len() == names.len()
    &&& r.total == names.len()
    &&& seq_views(r.succeeded@) == succeeded_names(names, outs)
    &&& seq_views(r.already_present@) == already_names(names, outs)
    &&& pair_views(r.failed@) == failed_pairs(names, outs)
}

/// `b` reconciles exactly the jobs `names`: one bucket entry per name, under
/// some per-job outcome sequence.
pub open spec fn batch_covers(b: BatchResult, names: Seq<Seq<char>>) -> bool {
    &&& b.total == names.len()
    &&& exists|outs: Seq<JobOutcome>| is_aggregate_of(b, names, outs)
}

/// Thread-unaware accumulation of `(name, outcome)` pairs into the three
/// buckets; its view is the history of recorded pairs, and the buckets are at
/// all times the aggregation of that history.
pub struct ResultAggregator {
    succeeded: Vec<String>,
    already_present: Vec<String>,
    failed: Vec<(String, String)>,
    count: usize,
    history: Ghost<(Seq<Seq<char>>, Seq<JobOutcome>)>,
}

impl View for ResultAggregator {
    type V = (Seq<Seq<char>>, Seq<JobOutcome>);

    closed spec fn view(&self) -> (Seq<Seq<char>>, Seq<JobOutcome>) {
        self.history@
    }
}

impl ResultAggregator {
    /// The buckets are exactly the aggregation of the recorded history.
    #[verifier::type_invariant]
    spec fn inv(self) -> bool {
        &&& self.history@.1.len() == self.history@.0.len()
        &&& self.count == self.history@.0.len()
        &&& seq_views(self.succeeded@) == succeeded_names(self.history@.0, self.history@.1)
        &&& seq_views(self.already_present@) == already_names(self.history@.0, self.history@.1)
        &&& pair_views(self.failed@) == failed_pairs(self.history@.0, self.history@.1)
    }

    /// An empty aggregator.
    pub fn new() -> (r: Self)
        ensures
            r@.0 =~= Seq::<Seq<char>>::empty(),
            r@.1 =~= Seq::<JobOutcome>::empty(),
    {
        let succeeded: Vec<String> = Vec::new();
        let already_present: Vec<String> = Vec::new();
        let failed: Vec<(String, String)> = Vec::new();
        proof {
            assert(seq_views(Seq::<String>::empty()) =~= Seq::<Seq<char>>::empty());
            assert(pair_views(Seq::<(String, String)>::empty()) =~= Seq::<
                (Seq<char>, Seq<char>),
            >::empty());
        }
        ResultAggregator {
            succeeded,
            already_present,
            failed,
            count: 0,
            history: Ghost((Seq::empty(), Seq::empty())),
        }
    }

    /// Files one completed job into the bucket of its outcome. No pair is ever
    /// filed twice: each call appends one pair to the history.
    pub fn record(&mut self, name: String, outcome: JobOutcome)
        requires
            old(self)@.0.len() < usize::MAX,
        ensures
            final(self)@.0 == old(self)@.0.push(name@),
            final(self)@.1 == old(self)@.1.push(outcome),
    {
        proof {
            use_type_invariant(&*self);
        }
        let mut taken = ResultAggregator::new();
        core::mem::swap(self, &mut taken);
        let ResultAggregator {
            succeeded: mut succeeded,
            already_present: mut already_present,
            failed: mut failed,
            count,
            history,
        } = taken;
        let ghost h0 = history@;
        let ghost o = outcome;
        let ghost nv = name@;
        let ghost h1 = (h0.0.push(nv), h0.1.push(o));
        proof {
            assert(h1.0.drop_last() =~= h0.0);
            assert(h1.1.drop_last() =~= h0.1);
        }
        match outcome {
            JobOutcome::AlreadyPresent => {
                let ghost b0 = already_present@;
                already_present.push(name);
                proof {
                    assert(seq_views(already_present@) =~= seq_views(b0).push(nv));
                    assert(seq_views(already_present@) =~= already_names(h1.0, h1.1));
                }
            },
            JobOutcome::Cloned => {
                let ghost b0 = succeeded@;
                succeeded.push(name);
                proof {
                    assert(seq_views(succeeded@) =~= seq_views(b0).push(nv));
                    assert(seq_views(succeeded@) =~= succeeded_names(h1.0, h1.1));
                }
            },
            JobOutcome::Failed(reason) => {
                let ghost b0 = failed@;
                let ghost rv = reason@;
                failed.push((name, reason));
                proof {
                    assert(pair_views(failed@) =~= pair_views(b0).push((nv, rv)));
                    assert(pair_views(failed@) =~= failed_pairs(h1.0, h1.1));
                }
            },
        }
        proof {
            assert(seq_views(succeeded@) =~= succeeded_names(h1.0, h1.1));
            assert(seq_views(already_present@) =~= already_names(h1.0, h1.1));
            assert(pair_views(failed@) =~= failed_pairs(h1.0, h1.1));
        }
        *self = ResultAggregator {
            succeeded,
            already_present,
            failed,
            count: count + 1,
            history: Ghost(h1),
        };
    }

    /// Hands the finished, immutable batch result over: the aggregation of
    /// everything recorded. Called only after all workers have joined.
    pub fn finalize(self) -> (r: BatchResult)
        ensures
            is_aggregate_of(r, self@.0, self@.1),
    {
        proof {
            use_type_invariant(&self);
        }
        BatchResult {
            total: self.count,
            succeeded: self.succeeded,
            already_present: self.already_present,
            failed: self.failed,
        }
    }
}

/// How many entries of `s` equal `x`.
pub open spec fn count_occurrences(s: Seq<Seq<char>>, x: Seq<char>) -> nat
    decreases s.len(),
{
    if s.len() == 0 {
        0
    } else {
        count_occurrences(s.drop_last(), x) + if s.last() == x {
            1nat
        } else {
            0nat
        }
    }
}

/// Counting distributes over concatenation.
pub proof fn lemma_count_concat(a: Seq<Seq<char>>, b: Seq<Seq<char>>, x: Seq<char>)
    ensures
        count_occurrences(a + b, x) == count_occurrences(a, x) + count_occurrences(b, x),
    decreases b.len(),
{
    if b.len() == 0 {
        assert(a + b =~= a);
    } else {
        lemma_count_concat(a, b.drop_last(), x);
        assert((a + b).drop_last() =~= a + b.drop_last());
        assert((a + b).last() == b.last());
    }
}

/// An entry occurs somewhere exactly when its count is positive.
pub proof fn lemma_count_positive(s: Seq<Seq<char>>, x: Seq<char>)
    ensures
        s.contains(x) <==> count_occurrences(s, x) > 0,
    decreases s.len(),
{
    if s.len() > 0 {
        lemma_count_positive(s.drop_last(), x);
        assert(s.contains(x) <==> (s.last() == x || s.drop_last().contains(x))) by {
            if s.contains(x) {
                let i = choose|i: int| 0 <= i < s.len() && s[i] == x;
                if i < s.len() - 1 {
                    assert(s.drop_last()[i] == x);
                }
            }
            if s.drop_last().contains(x) {
                let i = choose|i: int| 0 <= i < s.drop_last().len() && s.drop_last()[i] == x;
                assert(s[i] == x);
            }
        }
    }
}

/// Law (partition): the three buckets of a batch are mutually exclusive and
/// exhaustive over its jobs — their lengths add up to the number of jobs, and
/// each name occurs across the three buckets exactly as often as it was
/// requested. Every job lands in exactly one bucket exactly once, whatever
/// outcome each job had.
pub proof fn lemma_batch_partition(names: Seq<Seq<char>>, outs: Seq<JobOutcome>)
    requires
        outs.len() == names.len(),
    ensures
        succeeded_names(names, outs).len() + already_names(names, outs).len() + failed_pairs(
            names,
            outs,
        ).len() == names.len(),
        forall|x: Seq<char>| #[trigger] count_occurrences(names, x) == count_occurrences(
            succeeded_names(names, outs),
            x,
        ) + count_occurrences(already_names(names, outs), x) + count_occurrences(
            failed_names(names, outs),
            x,
        ),
        failed_names(names, outs).len() == failed_pairs(names, outs).len(),
        forall|i: int|
            0 <= i < failed_pairs(names, outs).len() ==> #[trigger] failed_pairs(names, outs)[i].0
                == failed_names(names, outs)[i],
    decreases names.len(),
{
    if names.len() > 0 {
        let ns = names.drop_last();
        let os = outs.drop_last();
        lemma_batch_partition(ns, os);
        let last_out = outs[names.len() - 1];
        let tail_s: Seq<Seq<char>> = if last_out is Cloned {
            seq![names.last()]
        } else {
            Seq::empty()
        };
        let tail_a: Seq<Seq<char>> = if last_out is AlreadyPresent {
            seq![names.last()]
        } else {
            Seq::empty()
        };
        let tail_f: Seq<Seq<char>> = if last_out is Failed {
            seq![names.last()]
        } else {
            Seq::empty()
        };
        assert(succeeded_names(names, outs) == succeeded_names(ns, os) + tail_s);
        assert(already_names(names, outs) == already_names(ns, os) + tail_a);
        assert(failed_names(names, outs) == failed_names(ns, os) + tail_f);
        assert(seq![names.last()].drop_last() =~= Seq::<Seq<char>>::empty());
        assert forall|x: Seq<char>| #[trigger] count_occurrences(names, x) == count_occurrences(
            succeeded_names(names, outs),
            x,
        ) + count_occurrences(already_names(names, outs), x) + count_occurrences(
            failed_names(names, outs),
            x,
        ) by {
            lemma_count_concat(succeeded_names(ns, os), tail_s, x);
            lemma_count_concat(already_names(ns, os), tail_a, x);
            lemma_count_concat(failed_names(ns, os), tail_f, x);
            assert(count_occurrences(seq![names.last()], x) == if names.last() == x {
                1nat
            } else {
                0nat
            });
            assert(count_occurrences(names, x) == count_occurrences(ns, x) + if names.last() == x {
                1nat
            } else {
                0nat
            });
        }
        assert forall|i: int| 0 <= i < failed_pairs(names, outs).len() implies #[trigger] failed_pairs(
            names,
            outs,
        )[i].0 == failed_names(names, outs)[i] by {
            if i < failed_pairs(ns, os).len() {
                assert(failed_pairs(names, outs)[i] == failed_pairs(ns, os)[i]);
                assert(failed_names(names, outs)[i] == failed_names(ns, os)[i]);
            }
        }
    }
}

/// Law (partition, at the result): a batch result that aggregates a job list
/// satisfies the partition invariant of its type: the three bucket lengths add
/// up to the total, and every requested name fills exactly as many bucket
/// slots, across all three buckets together, as it was requested — each job in
/// exactly one bucket.
pub proof fn lemma_result_partition(r: BatchResult, names: Seq<Seq<char>>, outs: Seq<JobOutcome>)
    requires
        is_aggregate_of(r, names, outs),
    ensures
        r.succeeded@.len() + r.already_present@.len() + r.failed@.len() == r.total,
        forall|x: Seq<char>| #[trigger] count_occurrences(names, x) == count_occurrences(
            seq_views(r.succeeded@),
            x,
        ) + count_occurrences(seq_views(r.already_present@), x) + count_occurrences(
            failed_names(names, outs),
            x,
        ),
{
    lemma_batch_partition(names, outs);
}

/// A sequence of pairwise distinct entries holds each at most once.
pub proof fn lemma_distinct_count(s: Seq<Seq<char>>)
    requires
        forall|i: int, j: int| 0 <= i < j < s.len() ==> s[i] != s[j],
    ensures
        forall|x: Seq<char>| #[trigger] count_occurrences(s, x) <= 1,
    decreases s.len(),
{
    if s.len() > 0 {
        let dl = s.drop_last();
        assert(forall|i: int, j: int| 0 <= i < j < dl.len() ==> dl[i] != dl[j]) by {
            assert(forall|i: int| 0 <= i < dl.len() ==> dl[i] == s[i]);
        }
        lemma_distinct_count(dl);
        assert forall|x: Seq<char>| #[trigger] count_occurrences(s, x) <= 1 by {
            assert(count_occurrences(s, x) == count_occurrences(dl, x) + if s.last() == x {
                1nat
            } else {
                0nat
            });
            if x == s.last() {
                assert(!dl.contains(x)) by {
                    if dl.contains(x) {
                        let i = choose|i: int| 0 <= i < dl.len() && dl[i] == x;
                        assert(s[i] == s.last());
                    }
                }
                lemma_count_positive(dl, x);
            }
        }
    }
}

/// Law (no job twice): over pairwise distinct job names, the three buckets are
/// pairwise disjoint and each holds any name at most once — no job is filed
/// twice, whatever its outcome and in whatever order jobs complete.
pub proof fn lemma_no_job_twice(names: Seq<Seq<char>>, outs: Seq<JobOutcome>)
    requires
        outs.len() == names.len(),
        forall|i: int, j: int| 0 <= i < j < names.len() ==> names[i] != names[j],
    ensures
        forall|x: Seq<char>| #[trigger] count_occurrences(succeeded_names(names, outs), x)
            + count_occurrences(already_names(names, outs), x) + count_occurrences(
            failed_names(names, outs),
            x,
        ) <= 1,
{
    lemma_batch_partition(names, outs);
    lemma_distinct_count(names);
    assert forall|x: Seq<char>| #[trigger] count_occurrences(succeeded_names(names, outs), x)
        + count_occurrences(already_names(names, outs), x) + count_occurrences(
        failed_names(names, outs),
        x,
    ) <= 1 by {
        assert(count_occurrences(names, x) <= 1);
    }
}

/// Law (idempotence of the second run): when every job of a batch finds its
/// local path already present — as on the second of two identical runs with no
/// intervening changes — the aggregation puts every name in the
/// already-present bucket, in order, and nothing anywhere else.
pub proof fn lemma_second_run_idempotent(names: Seq<Seq<char>>, outs: Seq<JobOutcome>)
    requires
        outs.len() == names.len(),
        forall|i: int| 0 <= i < outs.len() ==> outs[i] is AlreadyPresent,
    ensures
        already_names(names, outs) =~= names,
        succeeded_names(names, outs) =~= Seq::<Seq<char>>::empty(),
        failed_pairs(names, outs) =~= Seq::<(Seq<char>, Seq<char>)>::empty(),
    decreases names.len(),
{
    if names.len() > 0 {
        lemma_second_run_idempotent(names.drop_last(), outs.drop_last());
        assert(already_names(names, outs) =~= names.drop_last().push(names.last()));
        assert(names.drop_last().push(names.last()) =~= names);
    }
}

} // verus!
