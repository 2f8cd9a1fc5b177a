//! The in-memory configuration: one remote base URL and a map from codebase
//! names to their repository lists.
//!
//! The map keeps insertion order and never holds two entries with the same
//! name. Its mathematical model is an association sequence of
//! `(name, repositories)` pairs; the spec functions `assoc_contains`,
//! `assoc_get`, `assoc_put` and `assoc_remove` read and rewrite that model by
//! first match, which under the uniqueness invariant is the only match.

use vstd::prelude::*;
use vstd::string::StringExecFns;

use crate::error::BasecampError;
use crate::error::BasecampResult;
use crate::text::contains_string;
use crate::text::str_eq;
use crate::text::remove_eq;
use crate::text::remove_matching;
use crate::text::seq_views;
use crate::text::spec_starts_with;
use crate::text::starts_with;

verus! {

/// Remote configuration: the base URL all repositories hang under.
#[derive(Debug)]
pub struct GitConfig {
    /// Base remote URL for repositories.
    pub github_url: String,
}

/// One codebase: its name and its repositories, in insertion order.
#[derive(Debug)]
struct CodebaseEntry {
    name: String,
    repos: Vec<String>,
}

/// All codebases, keyed by name; insertion order kept, names unique.
#[derive(Debug)]
pub struct CodebaseMap {
    entries: Vec<CodebaseEntry>,
}

/// Codebases configuration: the map of codebase names to repository lists.
#[derive(Debug)]
pub struct CodebasesConfig {
    /// Map of codebase names to repository lists.
    pub codebases: CodebaseMap,
}

/// The whole configuration.
#[derive(Debug)]
pub struct Config {
    /// Remote configuration.
    pub git_config: GitConfig,
    /// Codebases configuration.
    pub codebases_config: CodebasesConfig,
}

/// True when `m` has an entry named `k`.
pub open spec fn assoc_contains(m: Seq<(Seq<char>, Seq<Seq<char>>)>, k: Seq<char>) -> bool
    decreases m.len(),
{
    m.len() > 0 && (m.first().0 == k || assoc_contains(m.drop_first(), k))
}

/// The repository list of the first entry named `k` (empty when there is none).
pub open spec fn assoc_get(m: Seq<(Seq<char>, Seq<Seq<char>>)>, k: Seq<char>) -> Seq<Seq<char>>
    decreases m.len(),
{
    if m.len() == 0 {
        Seq::empty()
    } else if m.first().0 == k {
        m.first().1
    } else {
        assoc_get(m.drop_first(), k)
    }
}

/// `m` with the entry named `k` rewritten to `v`; a missing entry is appended.
pub open spec fn assoc_put(
    m: Seq<(Seq<char>, Seq<Seq<char>>)>,
    k: Seq<char>,
    v: Seq<Seq<char>>,
) -> Seq<(Seq<char>, Seq<Seq<char>>)>
    decreases m.len(),
{
    if m.len() == 0 {
        seq![(k, v)]
    } else if m.first().0 == k {
        seq![(k, v)] + m.drop_first()
    } else {
        seq![m.first()] + assoc_put(m.drop_first(), k, v)
    }
}

/// `m` without its first entry named `k`.
pub open spec fn assoc_remove(m: Seq<(Seq<char>, Seq<Seq<char>>)>, k: Seq<char>) -> Seq<
    (Seq<char>, Seq<Seq<char>>),
>
    decreases m.len(),
{
    if m.len() == 0 {
        m
    } else if m.first().0 == k {
        m.drop_first()
    } else {
        seq![m.first()] + assoc_remove(m.drop_first(), k)
    }
}

/// The names of the entries of `m`, in order.
pub open spec fn assoc_keys(m: Seq<(Seq<char>, Seq<Seq<char>>)>) -> Seq<Seq<char>> {
    m.map_values(|p: (Seq<char>, Seq<Seq<char>>)| p.0)
}

/// Adding `repos` to `list` one by one, skipping those already present:
/// the pair of the grown list and the names actually added, in order.
pub open spec fn spec_add_run(list: Seq<Seq<char>>, repos: Seq<Seq<char>>) -> (
    Seq<Seq<char>>,
    Seq<Seq<char>>,
)
    decreases repos.len(),
{
    if repos.len() == 0 {
        (list, Seq::empty())
    } else if list.contains(repos.first()) {
        spec_add_run(list, repos.drop_first())
    } else {
        let rest = spec_add_run(list.push(repos.first()), repos.drop_first());
        (rest.0, seq![repos.first()] + rest.1)
    }
}

/// Removing `repos` from `list` one by one, stopping at the first name that is
/// absent: the pair of the list reached and the absent name, if any. The list
/// reached matters even on failure, because removal mutates as it goes.
pub open spec fn spec_remove_run(list: Seq<Seq<char>>, repos: Seq<Seq<char>>) -> (
    Seq<Seq<char>>,
    Option<Seq<char>>,
)
    decreases repos.len(),
{
    if repos.len() == 0 {
        (list, None)
    } else if !list.contains(repos.first()) {
        (list, Some(repos.first()))
    } else {
        spec_remove_run(remove_eq(list, repos.first()), repos.drop_first())
    }
}

/// The association view of a sequence of entries.
spec fn entries_view(es: Seq<CodebaseEntry>) -> Seq<(Seq<char>, Seq<Seq<char>>)> {
    es.map_values(|e: CodebaseEntry| (e.name@, seq_views(e.repos@)))
}

impl View for CodebaseMap {
    type V = Seq<(Seq<char>, Seq<Seq<char>>)>;

    closed spec fn view(&self) -> Seq<(Seq<char>, Seq<Seq<char>>)> {
        entries_view(self.entries@)
    }
}

proof fn lemma_assoc_skip(m: Seq<(Seq<char>, Seq<Seq<char>>)>, k: Seq<char>, i: int)
    requires
        0 <= i <= m.len(),
        forall|j: int| 0 <= j < i ==> m[j].0 != k,
    ensures
        assoc_contains(m, k) == assoc_contains(m.skip(i), k),
        assoc_contains(m, k) ==> assoc_get(m, k) == assoc_get(m.skip(i), k),
    decreases i,
{
    if i == 0 {
        assert(m.skip(0) =~= m);
    } else {
        assert(m.drop_first().skip(i - 1) =~= m.skip(i));
        lemma_assoc_skip(m.drop_first(), k, i - 1);
    }
}

proof fn lemma_assoc_update(
    m: Seq<(Seq<char>, Seq<Seq<char>>)>,
    k: Seq<char>,
    v: Seq<Seq<char>>,
    i: int,
)
    requires
        0 <= i < m.len(),
        m[i].0 == k,
        forall|j: int| 0 <= j < i ==> m[j].0 != k,
    ensures
        assoc_put(m, k, v) =~= m.update(i, (k, v)),
    decreases i,
{
    if i == 0 {
        assert(assoc_put(m, k, v) =~= m.update(0, (k, v)));
    } else {
        lemma_assoc_update(m.drop_first(), k, v, i - 1);
        assert(assoc_put(m, k, v) =~= m.update(i, (k, v)));
    }
}

proof fn lemma_assoc_append(m: Seq<(Seq<char>, Seq<Seq<char>>)>, k: Seq<char>, v: Seq<Seq<char>>)
    requires
        !assoc_contains(m, k),
    ensures
        assoc_put(m, k, v) =~= m.push((k, v)),
    decreases m.len(),
{
    if m.len() > 0 {
        lemma_assoc_append(m.drop_first(), k, v);
        assert(assoc_put(m, k, v) =~= m.push((k, v)));
    }
}

proof fn lemma_assoc_remove_at(m: Seq<(Seq<char>, Seq<Seq<char>>)>, k: Seq<char>, i: int)
    requires
        0 <= i < m.len(),
        m[i].0 == k,
        forall|j: int| 0 <= j < i ==> m[j].0 != k,
    ensures
        assoc_remove(m, k) =~= m.remove(i),
    decreases i,
{
    if i == 0 {
        assert(assoc_remove(m, k) =~= m.remove(0));
    } else {
        lemma_assoc_remove_at(m.drop_first(), k, i - 1);
        assert(assoc_remove(m, k) =~= m.remove(i));
    }
}

/// An entry named `k` exists exactly when some position holds one.
pub proof fn lemma_assoc_contains_index(m: Seq<(Seq<char>, Seq<Seq<char>>)>, k: Seq<char>)
    ensures
        assoc_contains(m, k) <==> exists|i: int| 0 <= i < m.len() && m[i].0 == k,
    decreases m.len(),
{
    if m.len() > 0 {
        lemma_assoc_contains_index(m.drop_first(), k);
        assert(forall|i: int|
            0 <= i < m.drop_first().len() ==> #[trigger] m.drop_first()[i] == m[i + 1]);
        if assoc_contains(m, k) {
            if m.first().0 == k {
                assert(m[0].0 == k);
            } else {
                let i = choose|i: int| 0 <= i < m.drop_first().len() && m.drop_first()[i].0 == k;
                assert(m[i + 1].0 == k);
            }
        }
        if exists|i: int| 0 <= i < m.len() && m[i].0 == k {
            let i = choose|i: int| 0 <= i < m.len() && m[i].0 == k;
            if i > 0 {
                assert(m.drop_first()[i - 1].0 == k);
            }
        }
    }
}

proof fn lemma_assoc_get_absent(m: Seq<(Seq<char>, Seq<Seq<char>>)>, k: Seq<char>)
    requires
        !assoc_contains(m, k),
    ensures
        assoc_get(m, k) == Seq::<Seq<char>>::empty(),
    decreases m.len(),
{
    if m.len() > 0 {
        lemma_assoc_get_absent(m.drop_first(), k);
    }
}

impl CodebaseMap {
    /// Names are pairwise distinct.
    #[verifier::type_invariant]
    spec fn inv(self) -> bool {
        forall|i: int, j: int|
            0 <= i < j < self.entries@.len() ==> self.entries@[i].name@ != self.entries@[j].name@
    }

    /// An empty map.
    pub fn new() -> (r: Self)
        ensures
            r@ =~= Seq::<(Seq<char>, Seq<Seq<char>>)>::empty(),
    {
        CodebaseMap { entries: Vec::new() }
    }

    /// How many codebases the map holds.
    pub fn len(&self) -> (r: usize)
        ensures
            r == self@.len(),
    {
        self.entries.len()
    }

    /// The position of the entry named `name`, if any.
    fn find_index(&self, name: &String) -> (r: Option<usize>)
        ensures
            match r {
                Some(i) => i < self@.len() && self@[i as int].0 == name@ && (forall|j: int|
                    0 <= j < i ==> self@[j].0 != name@) && assoc_contains(self@, name@)
                    && assoc_get(self@, name@) == self@[i as int].1,
                None => !assoc_contains(self@, name@),
            },
    {
        let n: usize = self.entries.len();
        let mut i: usize = 0;
        while i < n
            invariant
                i <= n,
                n == self@.len(),
                n == self.entries@.len(),
                forall|j: int| 0 <= j < i ==> self@[j].0 != name@,
            decreases n - i,
        {
            if self.entries[i].name.eq(name) {
                proof {
                    lemma_assoc_skip(self@, name@, i as int);
                    assert(self@.skip(i as int).first() == self@[i as int]);
                }
                return Some(i);
            }
            assert(self@[i as int].0 != name@);
            i = i + 1;
        }
        proof {
            lemma_assoc_skip(self@, name@, n as int);
        }
        None
    }

    /// Whether a codebase of that name exists.
    pub fn contains_key(&self, name: &str) -> (r: bool)
        ensures
            r == assoc_contains(self@, name@),
    {
        let key = String::from_str(name);
        self.find_index(&key).is_some()
    }

    /// The repository list of the codebase `name`.
    pub fn get(&self, name: &str) -> (r: Option<&Vec<String>>)
        ensures
            match r {
                Some(v) => assoc_contains(self@, name@) && seq_views(v@) == assoc_get(
                    self@,
                    name@,
                ),
                None => !assoc_contains(self@, name@),
            },
    {
        let key = String::from_str(name);
        match self.find_index(&key) {
            Some(i) => Some(&self.entries[i].repos),
            None => None,
        }
    }

    /// The codebase names, in insertion order; no name occurs twice.
    pub fn keys(&self) -> (r: Vec<String>)
        ensures
            seq_views(r@) =~= assoc_keys(self@),
            forall|i: int, j: int| 0 <= i < j < r@.len() ==> r@[i]@ != r@[j]@,
    {
        proof {
            use_type_invariant(&*self);
        }
        let mut out: Vec<String> = Vec::new();
        let mut i: usize = 0;
        let n: usize = self.entries.len();
        while i < n
            invariant
                i <= n,
                n == self.entries@.len(),
                n == self@.len(),
                out@.len() == i,
                seq_views(out@) =~= assoc_keys(self@).take(i as int),
            decreases n - i,
        {
            let ghost out0 = out@;
            out.push(self.entries[i].name.clone());
            proof {
                assert(out@ =~= out0.push(out@[i as int]));
                assert(out@[i as int]@ == self.entries@[i as int].name@);
                assert(seq_views(out@) =~= assoc_keys(self@).take(i + 1)) by {
                    assert(forall|j: int| 0 <= j < i ==> seq_views(out@)[j] == seq_views(out0)[j]);
                }
            }
            i = i + 1;
        }
        assert(assoc_keys(self@).take(n as int) =~= assoc_keys(self@));
        assert(seq_views(out@) == assoc_keys(self@));
        assert forall|i: int, j: int| 0 <= i < j < out@.len() implies out@[i]@ != out@[j]@ by {
            assert(seq_views(out@)[i] == out@[i]@);
            assert(seq_views(out@)[j] == out@[j]@);
            assert(assoc_keys(self@)[i] == self@[i].0);
            assert(assoc_keys(self@)[j] == self@[j].0);
            assert(self@[i].0 == self.entries@[i].name@);
            assert(self@[j].0 == self.entries@[j].name@);
        }
        out
    }

    /// Drops the codebase `name`; reports whether it was there.
    fn remove_entry(&mut self, name: &str) -> (r: bool)
        ensures
            r == assoc_contains(old(self)@, name@),
            r ==> final(self)@ =~= assoc_remove(old(self)@, name@),
            !r ==> final(self)@ =~= old(self)@,
    {
        proof {
            use_type_invariant(&*self);
        }
        let key = String::from_str(name);
        match self.find_index(&key) {
            Some(i) => {
                proof {
                    lemma_assoc_remove_at(self@, name@, i as int);
                }
                let mut es: Vec<CodebaseEntry> = Vec::new();
                core::mem::swap(&mut es, &mut self.entries);
                let _ = es.remove(i);
                self.entries = es;
                true
            },
            None => false,
        }
    }

    /// Adds `repos` to the codebase `codebase`, creating the codebase when it
    /// is absent; a name already listed (or listed twice in `repos`) is
    /// skipped. Returns the names actually added, in order.
    fn add_repos(&mut self, codebase: &str, repos: &[String]) -> (added: Vec<String>)
        ensures
            final(self)@ =~= assoc_put(
                old(self)@,
                codebase@,
                spec_add_run(assoc_get(old(self)@, codebase@), seq_views(repos@)).0,
            ),
            seq_views(added@) =~= spec_add_run(
                assoc_get(old(self)@, codebase@),
                seq_views(repos@),
            ).1,
    {
        proof {
            use_type_invariant(&*self);
        }
        let ghost m0 = self@;
        let key = String::from_str(codebase);
        let found = self.find_index(&key);
        let mut es: Vec<CodebaseEntry> = Vec::new();
        core::mem::swap(&mut es, &mut self.entries);
        let ghost es0 = es@;
        let pos: usize;
        let mut entry: CodebaseEntry;
        match found {
            Some(j) => {
                entry = es.remove(j);
                pos = j;
            },
            None => {
                entry = CodebaseEntry { name: key, repos: Vec::new() };
                pos = es.len();
                proof {
                    lemma_assoc_get_absent(m0, codebase@);
                }
            },
        }
        assert(entry.name@ == codebase@);
        let ghost l0 = seq_views(entry.repos@);
        assert(l0 == assoc_get(m0, codebase@));
        let ghost rv = seq_views(repos@);
        let mut added: Vec<String> = Vec::new();
        let mut t: usize = 0;
        proof {
            assert(rv.skip(0) =~= rv);
            assert(seq_views(added@) =~= Seq::<Seq<char>>::empty());
            assert(Seq::<Seq<char>>::empty() + spec_add_run(l0, rv).1 =~= spec_add_run(l0, rv).1);
        }
        while t < repos.len()
            invariant
                t <= rv.len(),
                rv == seq_views(repos@),
                rv.len() == repos@.len(),
                entry.name@ == codebase@,
                spec_add_run(l0, rv).0 == spec_add_run(
                    seq_views(entry.repos@),
                    rv.skip(t as int),
                ).0,
                spec_add_run(l0, rv).1 =~= seq_views(added@) + spec_add_run(
                    seq_views(entry.repos@),
                    rv.skip(t as int),
                ).1,
            decreases rv.len() - t,
        {
            let ghost cur = seq_views(entry.repos@);
            let ghost rest = rv.skip(t as int);
            proof {
                assert(rest.first() == rv[t as int]);
                assert(rest.drop_first() =~= rv.skip(t + 1));
                assert(rv[t as int] == repos@[t as int]@);
            }
            if contains_string(&entry.repos, &repos[t]) {
                assert(cur.contains(rest.first()));
            } else {
                assert(!cur.contains(rest.first()));
                let ghost ad0 = added@;
                entry.repos.push(repos[t].clone());
                added.push(repos[t].clone());
                proof {
                    assert(seq_views(entry.repos@) =~= cur.push(rv[t as int]));
                    assert(seq_views(added@) =~= seq_views(ad0).push(rv[t as int]));
                    assert(seq_views(ad0) + (seq![rest.first()] + spec_add_run(
                        cur.push(rest.first()),
                        rest.drop_first(),
                    ).1) =~= seq_views(added@) + spec_add_run(
                        seq_views(entry.repos@),
                        rv.skip(t + 1),
                    ).1);
                }
            }
            t = t + 1;
        }
        proof {
            assert(rv.skip(rv.len() as int) =~= Seq::<Seq<char>>::empty());
            assert(spec_add_run(l0, rv).1 =~= seq_views(added@)) by {
                assert(seq_views(added@) + Seq::<Seq<char>>::empty() =~= seq_views(added@));
            }
        }
        let ghost newlist = seq_views(entry.repos@);
        es.insert(pos, entry);
        proof {
            assert(es@[pos as int].name@ == codebase@);
            assert(seq_views(es@[pos as int].repos@) == newlist);
            match found {
                Some(j) => {
                    assert(es@ =~= es0.update(j as int, es@[j as int]));
                    assert(entries_view(es@) =~= m0.update(j as int, (codebase@, newlist))) by {
                        assert(forall|x: int|
                            0 <= x < es@.len() && x != j ==> es@[x] == es0[x]);
                    }
                    lemma_assoc_update(m0, codebase@, newlist, j as int);
                    assert(forall|x: int|
                        0 <= x < es@.len() ==> #[trigger] es@[x].name@ == es0[x].name@);
                },
                None => {
                    assert(es@ =~= es0.push(es@[pos as int]));
                    assert(entries_view(es@) =~= m0.push((codebase@, newlist))) by {
                        assert(forall|x: int|
                            0 <= x < es0.len() ==> es@[x] == es0[x]);
                    }
                    lemma_assoc_append(m0, codebase@, newlist);
                    lemma_assoc_contains_index(m0, codebase@);
                    assert(forall|x: int|
                        0 <= x < es0.len() ==> #[trigger] es0[x].name@ == m0[x].0);
                    assert(forall|x: int|
                        0 <= x < es0.len() ==> #[trigger] es@[x].name@ != codebase@);
                },
            }
        }
        self.entries = es;
        added
    }

    /// Removes `repos` from the codebase `codebase`, in order, stopping at the
    /// first name not listed; removals made before the stop are kept, as the
    /// configuration mutates while the walk goes. Returns the missing name, if
    /// any.
    fn remove_repos(&mut self, codebase: &str, repos: &[String]) -> (missing: Option<String>)
        requires
            assoc_contains(old(self)@, codebase@),
        ensures
            final(self)@ =~= assoc_put(
                old(self)@,
                codebase@,
                spec_remove_run(assoc_get(old(self)@, codebase@), seq_views(repos@)).0,
            ),
            match missing {
                None => spec_remove_run(
                    assoc_get(old(self)@, codebase@),
                    seq_views(repos@),
                ).1 is None,
                Some(f) => spec_remove_run(
                    assoc_get(old(self)@, codebase@),
                    seq_views(repos@),
                ).1 == Some(f@),
            },
    {
        proof {
            use_type_invariant(&*self);
        }
        let ghost m0 = self@;
        let key = String::from_str(codebase);
        let found = self.find_index(&key);
        let mut es: Vec<CodebaseEntry> = Vec::new();
        core::mem::swap(&mut es, &mut self.entries);
        let ghost es0 = es@;
        let j: usize = match found {
            Some(j) => j,
            None => {
                proof {
                    assert(false);
                }
                0
            },
        };
        let mut entry: CodebaseEntry = es.remove(j);
        assert(entry.name@ == codebase@);
        let ghost l0 = seq_views(entry.repos@);
        assert(l0 == assoc_get(m0, codebase@));
        let ghost rv = seq_views(repos@);
        let mut missing: Option<String> = None;
        let mut t: usize = 0;
        proof {
            assert(rv.skip(0) =~= rv);
        }
        while t < repos.len() && missing.is_none()
            invariant
                t <= rv.len(),
                rv == seq_views(repos@),
                rv.len() == repos@.len(),
                entry.name@ == codebase@,
                match missing {
                    None => spec_remove_run(l0, rv) == spec_remove_run(
                        seq_views(entry.repos@),
                        rv.skip(t as int),
                    ),
                    Some(f) => spec_remove_run(l0, rv).0 == seq_views(entry.repos@)
                        && spec_remove_run(l0, rv).1 == Some(f@),
                },
            decreases rv.len() - t,
        {
            let ghost cur = seq_views(entry.repos@);
            let ghost rest = rv.skip(t as int);
            proof {
                assert(rest.first() == rv[t as int]);
                assert(rest.drop_first() =~= rv.skip(t + 1));
                assert(rv[t as int] == repos@[t as int]@);
            }
            if !contains_string(&entry.repos, &repos[t]) {
                assert(!cur.contains(rest.first()));
                missing = Some(repos[t].clone());
            } else {
                assert(cur.contains(rest.first()));
                let trimmed = remove_matching(&entry.repos, &repos[t]);
                entry.repos = trimmed;
                assert(seq_views(entry.repos@) =~= remove_eq(cur, rest.first()));
            }
            t = t + 1;
        }
        proof {
            if missing is None {
                assert(t == rv.len());
                assert(rv.skip(rv.len() as int) =~= Seq::<Seq<char>>::empty());
            }
        }
        let ghost newlist = seq_views(entry.repos@);
        es.insert(j, entry);
        proof {
            assert(es@[j as int].name@ == codebase@);
            assert(seq_views(es@[j as int].repos@) == newlist);
            assert(es@ =~= es0.update(j as int, es@[j as int]));
            assert(entries_view(es@) =~= m0.update(j as int, (codebase@, newlist))) by {
                assert(forall|x: int| 0 <= x < es@.len() && x != j ==> es@[x] == es0[x]);
            }
            lemma_assoc_update(m0, codebase@, newlist, j as int);
            assert(forall|x: int|
                0 <= x < es@.len() ==> #[trigger] es@[x].name@ == es0[x].name@);
        }
        self.entries = es;
        missing
    }
}

impl Config {
    /// A fresh configuration: no remote URL, no codebases.
    pub fn new() -> (r: Self)
        ensures
            r.git_config.github_url@ =~= Seq::<char>::empty(),
            r.codebases_config.codebases@ =~= Seq::<(Seq<char>, Seq<Seq<char>>)>::empty(),
    {
        Config {
            git_config: GitConfig { github_url: String::new() },
            codebases_config: CodebasesConfig { codebases: CodebaseMap::new() },
        }
    }

    /// The directory all configuration files live in.
    pub fn get_basecamp_dir() -> (r: String)
        ensures
            r@ == ".basecamp"@,
    {
        String::from_str(".basecamp")
    }

    /// The path of the remote-configuration file.
    pub fn get_config_path() -> (r: String)
        ensures
            r@ == ".basecamp/config.yaml"@,
    {
        String::from_str(".basecamp/config.yaml")
    }

    /// The path of the codebases file.
    pub fn get_codebases_path() -> (r: String)
        ensures
            r@ == ".basecamp/codebases.yaml"@,
    {
        String::from_str(".basecamp/codebases.yaml")
    }

    /// Whether a remote base URL is configured.
    pub fn has_github_url(&self) -> (r: bool)
        ensures
            r == (self.git_config.github_url@.len() != 0),
    {
        !self.git_config.github_url.as_str().is_empty()
    }

    /// Sets the remote base URL; only `https://...` and `git@...` forms are accepted.
    pub fn set_github_url(&mut self, url: String) -> (r: BasecampResult<()>)
        ensures
            spec_starts_with(url@, "https://"@) || spec_starts_with(url@, "git@"@) ==> {
                &&& r is Ok
                &&& final(self).git_config.github_url@ == url@
                &&& final(self).codebases_config.codebases@ == old(self).codebases_config.codebases@
            },
            !(spec_starts_with(url@, "https://"@) || spec_starts_with(url@, "git@"@)) ==> {
                &&& r matches Err(BasecampError::InvalidGitHubUrl(u)) && u@ == url@
                &&& final(self).git_config.github_url@ == old(self).git_config.github_url@
                &&& final(self).codebases_config.codebases@ == old(self).codebases_config.codebases@
            },
    {
        if !starts_with(url.as_str(), "https://") && !starts_with(url.as_str(), "git@") {
            return Err(BasecampError::InvalidGitHubUrl(url));
        }
        self.git_config.github_url = url;
        Ok(())
    }

    /// Removes a whole codebase; `CodebaseNotFound` when there is none.
    pub fn remove_codebase(&mut self, name: &str) -> (r: BasecampResult<()>)
        ensures
            assoc_contains(old(self).codebases_config.codebases@, name@) ==> {
                &&& r is Ok
                &&& final(self).codebases_config.codebases@ =~= assoc_remove(
                    old(self).codebases_config.codebases@,
                    name@,
                )
            },
            !assoc_contains(old(self).codebases_config.codebases@, name@) ==> {
                &&& r matches Err(BasecampError::CodebaseNotFound(n)) && n@ == name@
                &&& final(self).codebases_config.codebases@ =~= old(
                    self,
                ).codebases_config.codebases@
            },
            final(self).git_config.github_url@ == old(self).git_config.github_url@,
    {
        if !self.codebases_config.codebases.remove_entry(name) {
            return Err(BasecampError::CodebaseNotFound(String::from_str(name)));
        }
        Ok(())
    }

    /// Adds `repos` to the codebase `codebase`, creating it when absent;
    /// names already listed are skipped, never an error. Returns the names
    /// actually added, in order.
    pub fn add_repositories(&mut self, codebase: &str, repos: &[String]) -> (r: BasecampResult<
        Vec<String>,
    >)
        ensures
            final(self).codebases_config.codebases@ =~= assoc_put(
                old(self).codebases_config.codebases@,
                codebase@,
                spec_add_run(
                    assoc_get(old(self).codebases_config.codebases@, codebase@),
                    seq_views(repos@),
                ).0,
            ),
            r matches Ok(added) && seq_views(added@) =~= spec_add_run(
                assoc_get(old(self).codebases_config.codebases@, codebase@),
                seq_views(repos@),
            ).1,
            final(self).git_config.github_url@ == old(self).git_config.github_url@,
    {
        let added = self.codebases_config.codebases.add_repos(codebase, repos);
        Ok(added)
    }

    /// Removes `repos` from the codebase `codebase`, in order, stopping with
    /// `RepositoryNotFound` at the first name not listed; removals made before
    /// the stop are kept. `CodebaseNotFound` when the codebase is absent.
    pub fn remove_repositories(&mut self, codebase: &str, repos: &[String]) -> (r: BasecampResult<
        (),
    >)
        ensures
            !assoc_contains(old(self).codebases_config.codebases@, codebase@) ==> {
                &&& r matches Err(BasecampError::CodebaseNotFound(n)) && n@ == codebase@
                &&& final(self).codebases_config.codebases@ =~= old(
                    self,
                ).codebases_config.codebases@
            },
            assoc_contains(old(self).codebases_config.codebases@, codebase@) ==> {
                &&& final(self).codebases_config.codebases@ =~= assoc_put(
                    old(self).codebases_config.codebases@,
                    codebase@,
                    spec_remove_run(
                        assoc_get(old(self).codebases_config.codebases@, codebase@),
                        seq_views(repos@),
                    ).0,
                )
                &&& (spec_remove_run(
                    assoc_get(old(self).codebases_config.codebases@, codebase@),
                    seq_views(repos@),
                ).1 is None ==> r is Ok)
                &&& (match spec_remove_run(
                    assoc_get(old(self).codebases_config.codebases@, codebase@),
                    seq_views(repos@),
                ).1 {
                    Some(name) => r matches Err(BasecampError::RepositoryNotFound(rn, cb))
                        && rn@ == name && cb@ == codebase@,
                    None => true,
                })
            },
            final(self).git_config.github_url@ == old(self).git_config.github_url@,
    {
        if !self.codebases_config.codebases.contains_key(codebase) {
            return Err(BasecampError::CodebaseNotFound(String::from_str(codebase)));
        }
        match self.codebases_config.codebases.remove_repos(codebase, repos) {
            None => Ok(()),
            Some(name) => Err(
                BasecampError::RepositoryNotFound(name, String::from_str(codebase)),
            ),
        }
    }

    /// The repository list of `codebase`; `CodebaseNotFound` when there is none.
    pub fn get_repositories(&self, codebase: &str) -> (r: BasecampResult<&Vec<String>>)
        ensures
            match r {
                Ok(v) => assoc_contains(self.codebases_config.codebases@, codebase@) && seq_views(
                    v@,
                ) == assoc_get(self.codebases_config.codebases@, codebase@),
                Err(e) => !assoc_contains(self.codebases_config.codebases@, codebase@) && (
                e matches BasecampError::CodebaseNotFound(n) && n@ == codebase@),
            },
    {
        match self.codebases_config.codebases.get(codebase) {
            Some(v) => Ok(v),
            None => Err(BasecampError::CodebaseNotFound(String::from_str(codebase))),
        }
    }

    /// The codebase names, in insertion order; no name occurs twice.
    pub fn list_codebases(&self) -> (r: Vec<String>)
        ensures
            seq_views(r@) =~= assoc_keys(self.codebases_config.codebases@),
            forall|i: int, j: int| 0 <= i < j < r@.len() ==> r@[i]@ != r@[j]@,
    {
        self.codebases_config.codebases.keys()
    }
}

/// The remote base URL built from the connection style and the account name.
pub open spec fn spec_github_url(use_https: bool, name: Seq<char>) -> Seq<char> {
    if use_https {
        "https://github.com/"@ + name
    } else {
        "git@github.com:"@ + name
    }
}

/// Builds the remote base URL for the organisation or user `name`.
pub fn build_github_url(use_https: bool, name: &str) -> (r: String)
    ensures
        r@ == spec_github_url(use_https, name@),
{
    let mut out = if use_https {
        String::from_str("https://github.com/")
    } else {
        String::from_str("git@github.com:")
    };
    out.append(name);
    out
}

/// Settles the remote base URL from explicitly supplied parameters, as the
/// non-interactive initialisation does: the connection type must be `https` or
/// `ssh`, the repository type `org` or `personal` (it does not change the
/// URL), and the organisation or user name must be given; each gap or invalid
/// value is its own error, checked in that order.
pub fn init_github_url(
    connection_type: Option<String>,
    repo_type: Option<String>,
    name: Option<String>,
) -> (r: BasecampResult<String>)
    ensures
        connection_type is None ==> (r matches Err(BasecampError::Generic(m)) && m@
            == "In non-interactive mode, connection-type must be provided"@),
        connection_type is Some ==> ({
            let c = connection_type->Some_0@;
            &&& (c != "https"@ && c != "ssh"@) ==> (r matches Err(BasecampError::Generic(m)) && m@
                == "Invalid connection type: "@ + c + ". Use 'https' or 'ssh'"@)
            &&& (c == "https"@ || c == "ssh"@) ==> ({
                &&& repo_type is None ==> (r matches Err(BasecampError::Generic(m)) && m@
                    == "In non-interactive mode, repo-type must be provided"@)
                &&& repo_type is Some ==> ({
                    let t = repo_type->Some_0@;
                    &&& (t != "org"@ && t != "personal"@) ==> (r matches Err(
                        BasecampError::Generic(m),
                    ) && m@ == "Invalid repository type: "@ + t + ". Use 'org' or 'personal'"@)
                    &&& (t == "org"@ || t == "personal"@) ==> ({
                        &&& name is None ==> (r matches Err(BasecampError::Generic(m)) && m@
                            == "In non-interactive mode, name must be provided"@)
                        &&& name is Some ==> (r matches Ok(url) && url@ == spec_github_url(
                            c == "https"@,
                            name->Some_0@,
                        ))
                    })
                })
            })
        }),
{
    let use_https: bool = match connection_type {
        Some(c) => {
            if str_eq(c.as_str(), "https") {
                true
            } else if str_eq(c.as_str(), "ssh") {
                false
            } else {
                let mut m = String::from_str("Invalid connection type: ");
                m.append(c.as_str());
                m.append(". Use 'https' or 'ssh'");
                return Err(BasecampError::Generic(m));
            }
        },
        None => {
            return Err(
                BasecampError::Generic(
                    String::from_str("In non-interactive mode, connection-type must be provided"),
                ),
            );
        },
    };
    match repo_type {
        Some(t) => {
            if !str_eq(t.as_str(), "org") && !str_eq(t.as_str(), "personal") {
                let mut m = String::from_str("Invalid repository type: ");
                m.append(t.as_str());
                m.append(". Use 'org' or 'personal'");
                return Err(BasecampError::Generic(m));
            }
        },
        None => {
            return Err(
                BasecampError::Generic(
                    String::from_str("In non-interactive mode, repo-type must be provided"),
                ),
            );
        },
    }
    let account = match name {
        Some(n) => n,
        None => {
            return Err(
                BasecampError::Generic(
                    String::from_str("In non-interactive mode, name must be provided"),
                ),
            );
        },
    };
    Ok(build_github_url(use_https, account.as_str()))
}

} // verus!
