use crate::text::{
    lemma_lex_le_antisymmetric, lemma_lex_le_total, lemma_lex_le_transitive, less_than, lex_le,
    lex_lt,
};
use crate::fetcher::{
    cache_after, calls_for, lemma_store_asked_in_a_row, may_give_from, same_answers, store_asked,
    FetchHtml, HtmlFetcher,
};
use crate::types::{Error, UrlTyped};
use vstd::prelude::*;
use vstd::seq_lib::{
    to_multiset_contains, to_multiset_insert, to_multiset_len, to_multiset_remove,
};

verus! {

/// How many pages of ships are fetched at a time.
pub const SHIP_FETCH_LIMIT: usize = 20;

/// Whether one more task may be started while `in_flight` tasks are running, `limit` being
/// the number of tasks that may run at a time and zero standing for no limit.
pub fn may_start(in_flight: usize, limit: usize) -> (r: bool)
    ensures
        r == (limit == 0 || in_flight < limit),
{
    limit == 0 || in_flight < limit
}

/// The records `v` are in ascending order of their paths.
pub open spec fn sorted_by_path<T: UrlTyped>(v: Seq<T>) -> bool {
    forall|i: int, j: int| 0 <= i < j < v.len() ==> lex_le(v[i].path(), v[j].path())
}

/// No two different records of `v` have the same path.
pub open spec fn paths_tell_apart<T: UrlTyped>(v: Seq<T>) -> bool {
    forall|i: int, j: int|
        0 <= i < v.len() && 0 <= j < v.len() && v[i].path() == v[j].path() ==> v[i] == v[j]
}

/// What the tasks `results` brought: the records of those that succeeded, in the order of
/// `results`. Each result goes with the path that the task was started for.
pub open spec fn successes<T>(results: Seq<(String, Result<T, Error>)>) -> Seq<T>
    decreases results.len(),
{
    if results.len() == 0 {
        Seq::empty()
    } else {
        match results[0].1 {
            Ok(record) => seq![record] + successes(results.drop_first()),
            Err(_) => successes(results.drop_first()),
        }
    }
}

/// The records of the tasks that succeeded, in the order of `results`. A task that failed
/// leaves no record and does not fail the others.
pub fn collect_successes<T>(results: Vec<(String, Result<T, Error>)>) -> (r: Vec<T>)
    ensures
        r@ == successes(results@),
{
    let ghost all = results@;
    let mut rest = results;
    let mut out: Vec<T> = Vec::new();
    assert(out@ + successes(rest@) =~= successes(all));
    while rest.len() > 0
        invariant
            out@ + successes(rest@) == successes(all),
        decreases rest.len(),
    {
        let ghost before = rest@;
        let ghost kept = out@;
        let first = rest.remove(0);
        assert(rest@ =~= before.drop_first());
        match first.1 {
            Ok(record) => {
                out.push(record);
                assert(out@ + successes(rest@) =~= kept + (seq![record] + successes(rest@)));
            },
            Err(_) => {},
        }
    }
    assert(out@ + successes(rest@) =~= out@);
    out
}

/// The record at `p` comes before the record at `q` of `sorted`: its path comes first, or
/// the paths are the same and it comes from an earlier place.
pub open spec fn in_stable_order<T: UrlTyped>(sorted: Seq<T>, origin: Seq<int>, p: int, q: int) -> bool {
    lex_lt(sorted[p].path(), sorted[q].path()) || (sorted[p].path() == sorted[q].path()
        && origin[p] < origin[q])
}

/// `sorted` holds the records of `items` in ascending order of their paths, records with
/// the same path in the order in which they stand in `items`: `origin` gives for each place
/// of `sorted` the place in `items` that its record comes from.
pub open spec fn is_stable_order<T: UrlTyped>(items: Seq<T>, sorted: Seq<T>, origin: Seq<int>) -> bool {
    &&& origin.len() == sorted.len()
    &&& sorted.len() == items.len()
    &&& origin.no_duplicates()
    &&& forall|p: int|
        0 <= p < sorted.len() ==> 0 <= #[trigger] origin[p] < items.len() && sorted[p]
            == items[origin[p]]
    &&& forall|p: int, q: int|
        0 <= p < q < sorted.len() ==> #[trigger] in_stable_order(sorted, origin, p, q)
}

/// The records `items` in ascending order of their paths. Records with the same path keep
/// the order in which they came.
pub fn sort_by_path<T: UrlTyped>(items: Vec<T>) -> (r: Vec<T>)
    ensures
        exists|origin: Seq<int>| is_stable_order(items@, r@, origin),
        r@.to_multiset() == items@.to_multiset(),
        r@.len() == items@.len(),
        sorted_by_path(r@),
{
    let ghost all = items@;
    let mut rest = items;
    let mut out: Vec<T> = Vec::new();
    let ghost mut origin: Seq<int> = Seq::empty();
    assert(out@.to_multiset().add(rest@.to_multiset()) =~= all.to_multiset()) by {
        broadcast use vstd::seq_lib::group_to_multiset_ensures;

    }
    assert(all.take(0) =~= Seq::empty());
    assert(all.skip(0) =~= all);
    while rest.len() > 0
        invariant
            out@.to_multiset().add(rest@.to_multiset()) == all.to_multiset(),
            out@.len() + rest@.len() == all.len(),
            rest@ == all.skip(out@.len() as int),
            is_stable_order(all.take(out@.len() as int), out@, origin),
        decreases rest.len(),
    {
        let ghost before = rest@;
        let ghost placed = out@;
        let ghost k = out@.len() as int;
        let x = rest.remove(0);
        assert(x == all[k]);
        assert(rest@ =~= all.skip(k + 1));
        let key = x.get_path();
        let mut p: usize = 0;
        while p < out.len() && !less_than(key.as_str(), out[p].get_path().as_str())
            invariant
                p <= out.len(),
                key@ == x.path(),
                forall|j: int| 0 <= j < p ==> lex_le(out[j].path(), x.path()),
            decreases out.len() - p,
        {
            p += 1;
        }
        proof {
            assert forall|j: int| p <= j < placed.len() implies lex_lt(
                x.path(),
                placed[j].path(),
            ) by {
                if j > p {
                    if lex_le(placed[j].path(), x.path()) {
                        lemma_lex_le_total(placed[p as int].path(), placed[j].path());
                        assert(in_stable_order(placed, origin, p as int, j));
                        lemma_lex_le_transitive(
                            placed[p as int].path(),
                            placed[j].path(),
                            x.path(),
                        );
                    }
                }
            }
            assert forall|j: int| 0 <= j < p implies lex_lt(placed[j].path(), x.path())
                || placed[j].path() == x.path() by {
                if !lex_lt(placed[j].path(), x.path()) {
                    lemma_lex_le_antisymmetric(placed[j].path(), x.path());
                }
            }
        }
        out.insert(p, x);
        proof {
            broadcast use vstd::multiset::group_multiset_axioms;

            to_multiset_remove(before, 0);
            to_multiset_insert(placed, p as int, x);
            to_multiset_contains(before, x);
            assert(before.contains(x)) by {
                assert(before[0] == x);
            }
            assert(rest@ == before.remove(0));
            assert(out@ == placed.insert(p as int, x));
            assert(placed.to_multiset().insert(x).add(before.to_multiset().remove(x))
                =~= placed.to_multiset().add(before.to_multiset()));
            let older = origin;
            origin = older.insert(p as int, k);
            let seen = all.take(k + 1);
            assert forall|a: int| 0 <= a < out@.len() implies 0 <= #[trigger] origin[a] < seen.len()
                && out@[a] == seen[origin[a]] by {
                if a < p {
                    assert(origin[a] == older[a]);
                    assert(out@[a] == placed[a]);
                    assert(all.take(k)[older[a]] == seen[older[a]]);
                } else if a > p {
                    assert(origin[a] == older[a - 1]);
                    assert(out@[a] == placed[a - 1]);
                    assert(all.take(k)[older[a - 1]] == seen[older[a - 1]]);
                } else {
                    assert(origin[a] == k);
                    assert(out@[a] == x);
                    assert(seen[k] == all[k]);
                }
            }
            assert(origin.no_duplicates()) by {
                assert forall|a: int, b: int|
                    0 <= a < origin.len() && 0 <= b < origin.len() && a != b implies origin[a]
                    != origin[b] by {
                    let oa = if a < p {
                        a
                    } else {
                        a - 1
                    };
                    let ob = if b < p {
                        b
                    } else {
                        b - 1
                    };
                    if a != p && b != p {
                        assert(origin[a] == older[oa] && origin[b] == older[ob]);
                    } else if a == p {
                        assert(origin[b] == older[ob]);
                    } else {
                        assert(origin[a] == older[oa]);
                    }
                }
            }
            assert forall|a: int, b: int| 0 <= a < b < out@.len() implies #[trigger] in_stable_order(
                out@,
                origin,
                a,
                b,
            ) by {
                let oa = if a < p {
                    a
                } else {
                    a - 1
                };
                let ob = if b < p {
                    b
                } else {
                    b - 1
                };
                if a != p && b != p {
                    assert(out@[a] == placed[oa] && out@[b] == placed[ob]);
                    assert(origin[a] == older[oa] && origin[b] == older[ob]);
                    assert(in_stable_order(placed, older, oa, ob));
                } else if a == p {
                    assert(out@[a] == x);
                    assert(out@[b] == placed[ob]);
                    assert(lex_lt(x.path(), placed[ob].path()));
                } else {
                    assert(out@[b] == x);
                    assert(origin[b] == k);
                    assert(out@[a] == placed[oa]);
                    assert(origin[a] == older[oa]);
                    assert(0 <= older[oa] < k);
                    assert(lex_lt(placed[oa].path(), x.path()) || placed[oa].path() == x.path());
                }
            }
            assert(seen.len() == out@.len());
            assert(is_stable_order(seen, out@, origin));
        }
    }
    assert(rest@ =~= Seq::empty());
    assert(all.take(all.len() as int) =~= all);
    assert(out@.to_multiset() =~= all.to_multiset()) by {
        broadcast use vstd::seq_lib::group_to_multiset_ensures;

    }
    proof {
        assert forall|i: int, j: int| 0 <= i < j < out@.len() implies lex_le(
            out@[i].path(),
            out@[j].path(),
        ) by {
            lemma_lex_le_total(out@[i].path(), out@[j].path());
            assert(in_stable_order(out@, origin, i, j));
        }
    }
    out
}

/// The records that a run of tasks leaves: those of the tasks that succeeded, in ascending
/// order of their paths.
pub fn finish_records<T: UrlTyped>(results: Vec<(String, Result<T, Error>)>) -> (r: Vec<T>)
    ensures
        exists|origin: Seq<int>| is_stable_order(successes(results@), r@, origin),
        r@.to_multiset() == successes(results@).to_multiset(),
        r@.len() == successes(results@).len(),
        sorted_by_path(r@),
{
    sort_by_path(collect_successes(results))
}

/// Two lists that hold the same records in ascending order of their paths are the same
/// list, where the paths tell the records apart.
pub proof fn lemma_sorted_is_unique<T: UrlTyped>(a: Seq<T>, b: Seq<T>)
    requires
        a.to_multiset() == b.to_multiset(),
        sorted_by_path(a),
        sorted_by_path(b),
        paths_tell_apart(a),
    ensures
        a == b,
    decreases a.len(),
{
    broadcast use vstd::seq_lib::group_to_multiset_ensures;

    to_multiset_len(a);
    to_multiset_len(b);
    assert(a.len() == b.len());
    if a.len() == 0 {
        assert(a =~= b);
    } else {
        to_multiset_contains(a, b[0]);
        to_multiset_contains(b, b[0]);
        to_multiset_contains(a, a[0]);
        to_multiset_contains(b, a[0]);
        assert(b.contains(b[0]));
        assert(a.contains(a[0]));
        let i = choose|i: int| 0 <= i < a.len() && a[i] == b[0];
        let j = choose|j: int| 0 <= j < b.len() && b[j] == a[0];
        lemma_lex_le_total(a[0].path(), a[0].path());
        lemma_lex_le_total(b[0].path(), b[0].path());
        assert(lex_le(a[0].path(), b[0].path()));
        assert(lex_le(b[0].path(), a[0].path()));
        lemma_lex_le_antisymmetric(a[0].path(), b[0].path());
        assert(a[0] == b[0]);
        to_multiset_remove(a, 0);
        to_multiset_remove(b, 0);
        assert(a.remove(0) =~= a.drop_first());
        assert(b.remove(0) =~= b.drop_first());
        let x = a.drop_first();
        let y = b.drop_first();
        assert(sorted_by_path(x)) by {
            assert forall|i: int, j: int| 0 <= i < j < x.len() implies lex_le(
                x[i].path(),
                x[j].path(),
            ) by {
                assert(x[i] == a[i + 1] && x[j] == a[j + 1]);
            }
        }
        assert(sorted_by_path(y)) by {
            assert forall|i: int, j: int| 0 <= i < j < y.len() implies lex_le(
                y[i].path(),
                y[j].path(),
            ) by {
                assert(y[i] == b[i + 1] && y[j] == b[j + 1]);
            }
        }
        assert(paths_tell_apart(x)) by {
            assert forall|i: int, j: int|
                0 <= i < x.len() && 0 <= j < x.len() && x[i].path() == x[j].path() implies x[i]
                == x[j] by {
                assert(x[i] == a[i + 1] && x[j] == a[j + 1]);
            }
        }
        lemma_sorted_is_unique(x, y);
        assert(a =~= seq![a[0]] + x);
        assert(b =~= seq![b[0]] + y);
    }
}

/// The order in which tasks end does not show in what a run leaves: two runs whose tasks
/// brought the same records, in whatever order, leave the same list, where the paths tell
/// the records apart.
pub proof fn lemma_order_of_completion_is_immaterial<T: UrlTyped>(
    first: Seq<T>,
    second: Seq<T>,
    first_sorted: Seq<T>,
    second_sorted: Seq<T>,
)
    requires
        first.to_multiset() == second.to_multiset(),
        first_sorted.to_multiset() == first.to_multiset(),
        second_sorted.to_multiset() == second.to_multiset(),
        sorted_by_path(first_sorted),
        sorted_by_path(second_sorted),
        paths_tell_apart(first),
    ensures
        first_sorted == second_sorted,
{
    broadcast use vstd::seq_lib::group_to_multiset_ensures;

    assert(paths_tell_apart(first_sorted)) by {
        assert forall|i: int, j: int|
            0 <= i < first_sorted.len() && 0 <= j < first_sorted.len() && first_sorted[i].path()
                == first_sorted[j].path() implies first_sorted[i] == first_sorted[j] by {
            to_multiset_contains(first_sorted, first_sorted[i]);
            to_multiset_contains(first_sorted, first_sorted[j]);
            to_multiset_contains(first, first_sorted[i]);
            to_multiset_contains(first, first_sorted[j]);
            assert(first_sorted.contains(first_sorted[i]));
            assert(first_sorted.contains(first_sorted[j]));
            let x = choose|x: int| 0 <= x < first.len() && first[x] == first_sorted[i];
            let y = choose|y: int| 0 <= y < first.len() && first[y] == first_sorted[j];
        }
    }
    lemma_sorted_is_unique(first_sorted, second_sorted);
}

/// A run of tasks, one for each of a list of paths, of which no more than `limit` are under
/// way at a time; a limit of zero is no limit. Whoever runs the tasks asks `start_next`
/// for the path of the next task as long as it gives one, reports each task that ended with
/// `task_done`, and takes the records with `finish` when `is_done`.
#[derive(Debug)]
pub struct FanOut<T> {
    /// The paths, in the order in which their tasks are started.
    pub paths: Vec<String>,
    /// How many tasks were started.
    pub started: usize,
    /// How many tasks are under way.
    pub in_flight: usize,
    /// How many tasks may be under way at a time; zero for any number.
    pub limit: usize,
    /// What the tasks that ended brought, in the order in which they ended.
    pub results: Vec<(String, Result<T, Error>)>,
}

impl<T> FanOut<T> {
    /// The run is well formed: the tasks that were started are under way or have ended, and
    /// no more are under way than the limit allows.
    pub open spec fn wf(&self) -> bool {
        &&& self.started <= self.paths.len()
        &&& self.in_flight + self.results.len() == self.started
        &&& self.limit == 0 || self.in_flight <= self.limit
    }

    /// A task may be started now: a path is left without a task, and fewer tasks are under
    /// way than the limit allows.
    pub open spec fn can_start(&self) -> bool {
        self.started < self.paths.len() && (self.limit == 0 || self.in_flight < self.limit)
    }

    /// Every task was started and has ended.
    pub open spec fn done(&self) -> bool {
        self.started == self.paths.len() && self.in_flight == 0
    }

    /// A run for `paths` of which no task was started yet.
    pub fn new(paths: Vec<String>, limit: usize) -> (r: Self)
        ensures
            r.wf(),
            r.paths == paths,
            r.limit == limit,
            r.started == 0,
            r.in_flight == 0,
            r.results@.len() == 0,
    {
        FanOut { paths, started: 0, in_flight: 0, limit, results: Vec::new() }
    }

    /// The path of the task to start next, if one may be started now: the first path without
    /// a task, unless as many tasks are under way as the limit allows. The task counts as
    /// under way from now on.
    pub fn start_next(&mut self) -> (r: Option<String>)
        requires
            old(self).wf(),
        ensures
            final(self).wf(),
            final(self).paths == old(self).paths,
            final(self).limit == old(self).limit,
            final(self).results == old(self).results,
            r is Some == old(self).can_start(),
            r matches Some(path) ==> path == old(self).paths[old(self).started as int],
            final(self).started == old(self).started + if r is Some { 1int } else { 0int },
            final(self).in_flight == old(self).in_flight + if r is Some { 1int } else { 0int },
    {
        if self.started < self.paths.len() && may_start(self.in_flight, self.limit) {
            let path = self.paths[self.started].clone();
            self.started = self.started + 1;
            self.in_flight = self.in_flight + 1;
            Some(path)
        } else {
            None
        }
    }

    /// Takes in what a task brought that has ended. The task is under way no longer.
    pub fn task_done(&mut self, path: String, result: Result<T, Error>)
        requires
            old(self).wf(),
            old(self).in_flight > 0,
        ensures
            final(self).wf(),
            final(self).paths == old(self).paths,
            final(self).limit == old(self).limit,
            final(self).started == old(self).started,
            final(self).in_flight == old(self).in_flight - 1,
            final(self).results@ == old(self).results@.push((path, result)),
    {
        self.in_flight = self.in_flight - 1;
        self.results.push((path, result));
    }

    /// Whether every task was started and has ended.
    pub fn is_done(&self) -> (r: bool)
        ensures
            r == self.done(),
    {
        self.started == self.paths.len() && self.in_flight == 0
    }
}

impl<T: UrlTyped> FanOut<T> {
    /// The records that the run leaves: those of the tasks that succeeded, in ascending
    /// order of their paths. Of a run that is done, every task has brought its result.
    pub fn finish(self) -> (r: Vec<T>)
        requires
            self.wf(),
        ensures
            exists|origin: Seq<int>| is_stable_order(successes(self.results@), r@, origin),
            r@.to_multiset() == successes(self.results@).to_multiset(),
            sorted_by_path(r@),
            self.done() ==> self.results@.len() == self.paths@.len(),
    {
        finish_records(self.results)
    }
}

/// What the cache holds once the pages at `paths` were fetched one after another, from a
/// cache that held `cache`, and `answers` came back.
pub open spec fn cache_in_turn(
    cache: Map<Seq<char>, Seq<char>>,
    paths: Seq<Seq<char>>,
    answers: Seq<Result<String, Error>>,
) -> Map<Seq<char>, Seq<char>>
    decreases paths.len(),
{
    if paths.len() == 0 || answers.len() != paths.len() {
        cache
    } else {
        cache_after(
            cache_in_turn(cache, paths.drop_last(), answers.drop_last()),
            paths.last(),
            answers.last(),
        )
    }
}

/// Every page that was handed out is in the cache afterwards, and what the cache held it
/// still holds.
pub proof fn lemma_fetched_pages_are_cached(
    cache: Map<Seq<char>, Seq<char>>,
    paths: Seq<Seq<char>>,
    answers: Seq<Result<String, Error>>,
)
    requires
        answers.len() == paths.len(),
    ensures
        forall|i: int|
            0 <= i < paths.len() && (#[trigger] answers[i]) is Ok ==> cache_in_turn(
                cache,
                paths,
                answers,
            ).contains_key(paths[i]),
        forall|path: Seq<char>|
            #[trigger] cache.contains_key(path) ==> cache_in_turn(cache, paths, answers).contains_key(
                path,
            ) && cache_in_turn(cache, paths, answers)[path] == cache[path],
    decreases paths.len(),
{
    if paths.len() > 0 {
        lemma_fetched_pages_are_cached(cache, paths.drop_last(), answers.drop_last());
        let held = cache_in_turn(cache, paths.drop_last(), answers.drop_last());
        assert forall|i: int| 0 <= i < paths.len() && (#[trigger] answers[i]) is Ok implies cache_in_turn(
            cache,
            paths,
            answers,
        ).contains_key(paths[i]) by {
            if i < paths.len() - 1 {
                assert(answers.drop_last()[i] == answers[i]);
                assert(paths.drop_last()[i] == paths[i]);
                assert(held.contains_key(paths[i]));
            }
        }
    }
}

/// The addresses that the store is asked for when the pages at `paths` are fetched one after
/// another, from a cache that held `cache`, and `answers` come back: a page is asked for
/// unless the cache holds it by then.
pub open spec fn calls_in_turn(
    base_url: Seq<char>,
    cache: Map<Seq<char>, Seq<char>>,
    paths: Seq<Seq<char>>,
    answers: Seq<Result<String, Error>>,
) -> Seq<Seq<char>>
    decreases paths.len(),
{
    if paths.len() == 0 || answers.len() != paths.len() {
        Seq::empty()
    } else {
        calls_in_turn(base_url, cache, paths.drop_last(), answers.drop_last()) + calls_for(
            base_url,
            cache_in_turn(cache, paths.drop_last(), answers.drop_last()),
            paths.last(),
        )
    }
}

/// Pages that the cache holds are not asked for: fetching pages all of which the cache holds
/// asks the store for nothing.
pub proof fn lemma_cached_pages_ask_nothing(
    base_url: Seq<char>,
    cache: Map<Seq<char>, Seq<char>>,
    paths: Seq<Seq<char>>,
    answers: Seq<Result<String, Error>>,
)
    requires
        answers.len() == paths.len(),
        forall|i: int| 0 <= i < paths.len() ==> cache.contains_key(#[trigger] paths[i]),
    ensures
        calls_in_turn(base_url, cache, paths, answers).len() == 0,
    decreases paths.len(),
{
    if paths.len() > 0 {
        assert forall|i: int| 0 <= i < paths.len() - 1 implies cache.contains_key(
            #[trigger] paths.drop_last()[i],
        ) by {
            assert(paths.drop_last()[i] == paths[i]);
        }
        lemma_cached_pages_ask_nothing(base_url, cache, paths.drop_last(), answers.drop_last());
        lemma_fetched_pages_are_cached(cache, paths.drop_last(), answers.drop_last());
        assert(cache.contains_key(paths[paths.len() - 1]));
    }
}

/// `answers` is something that fetching the pages at `paths` one after another may give,
/// from a cache that held `cache`: each answer is one that its fetch may give with what the
/// cache holds by then.
pub open spec fn fetched_in_turn<C: FetchHtml>(
    client: C,
    base_url: Seq<char>,
    cache: Map<Seq<char>, Seq<char>>,
    paths: Seq<Seq<char>>,
    answers: Seq<Result<String, Error>>,
) -> bool
    decreases paths.len(),
{
    answers.len() == paths.len() && (paths.len() == 0 || (fetched_in_turn(
        client,
        base_url,
        cache,
        paths.drop_last(),
        answers.drop_last(),
    ) && may_give_from(
        client,
        base_url,
        cache_in_turn(cache, paths.drop_last(), answers.drop_last()),
        paths.last(),
        answers.last(),
    )))
}

/// The paths `paths`, as sequences of characters.
pub open spec fn path_views(paths: Seq<String>) -> Seq<Seq<char>> {
    paths.map_values(|p: String| p@)
}

/// `result` is what the task for the page at `path` brings when its fetch gave `answer`:
/// what `parse` makes of the page, or the failure of the fetch.
pub open spec fn read_by<T, F: Fn(String, String) -> Result<T, Error>>(
    parse: F,
    path: String,
    answer: Result<String, Error>,
    result: Result<T, Error>,
) -> bool {
    match answer {
        Ok(html) => call_ensures(parse, (html, path), result),
        Err(e) => result == Err::<T, Error>(e),
    }
}

/// `results` is what the tasks for the pages at `paths` bring, in the order of `paths`,
/// when their fetches gave `answers`.
pub open spec fn all_read_by<T, F: Fn(String, String) -> Result<T, Error>>(
    parse: F,
    paths: Seq<String>,
    answers: Seq<Result<String, Error>>,
    results: Seq<(String, Result<T, Error>)>,
) -> bool {
    &&& results.len() == paths.len()
    &&& answers.len() == paths.len()
    &&& forall|i: int|
        0 <= i < paths.len() ==> (#[trigger] results[i]).0 == paths[i] && read_by(
            parse,
            paths[i],
            answers[i],
            results[i].1,
        )
}

/// `records` is what is left of `results`: the records of the tasks that succeeded, in
/// ascending order of their paths.
pub open spec fn left_of<T: UrlTyped>(
    results: Seq<(String, Result<T, Error>)>,
    records: Seq<T>,
) -> bool {
    exists|origin: Seq<int>| is_stable_order(successes(results), records, origin)
}

/// `records` is what enriching the pages at `paths` may give with a fetcher that asks the
/// store `client` under `base_url`, holds `cache` before and `cache_left` after, the store
/// being `client_left` then: the pages are fetched one after another, the store being asked
/// for those that the cache does not hold, each is read by `parse`, and the records of
/// those that could be fetched and read are put in ascending order of their paths.
pub open spec fn enriched<C: FetchHtml, T: UrlTyped, F: Fn(String, String) -> Result<T, Error>>(
    client: C,
    base_url: Seq<char>,
    cache: Map<Seq<char>, Seq<char>>,
    paths: Seq<String>,
    parse: F,
    records: Seq<T>,
    cache_left: Map<Seq<char>, Seq<char>>,
    client_left: C,
) -> bool {
    exists|answers: Seq<Result<String, Error>>, results: Seq<(String, Result<T, Error>)>|
        #![trigger all_read_by(parse, paths, answers, results)]
        fetched_in_turn(client, base_url, cache, path_views(paths), answers) && cache_left
            == cache_in_turn(cache, path_views(paths), answers) && store_asked(
            client,
            calls_in_turn(base_url, cache, path_views(paths), answers),
            client_left,
        ) && all_read_by(parse, paths, answers, results) && left_of(results, records)
}

/// Turns a list of paths into records: each page is fetched, from the cache where the cache
/// holds it, and read by `parse`; a page that cannot be fetched or read is left out and
/// fails nothing else; the records come in ascending order of their paths.
pub fn enrich<C, T, F>(fetcher: &mut HtmlFetcher<C>, paths: Vec<String>, parse: F) -> (r: Vec<T>)
    where
        C: FetchHtml,
        T: UrlTyped,
        F: Fn(String, String) -> Result<T, Error>,
    requires
        forall|html: String, path: String| call_requires(parse, (html, path)),
    ensures
        final(fetcher).base_url == old(fetcher).base_url,
        enriched(
            old(fetcher).client,
            old(fetcher).base_url@,
            old(fetcher).cache@,
            paths@,
            parse,
            r@,
            final(fetcher).cache@,
            final(fetcher).client,
        ),
{
    let ghost start = fetcher.cache@;
    let ghost store = fetcher.client;
    let ghost base = fetcher.base_url@;
    let ghost mut answers: Seq<Result<String, Error>> = Seq::empty();
    let mut results: Vec<(String, Result<T, Error>)> = Vec::new();
    let mut i: usize = 0;
    assert(paths@.take(0) =~= Seq::empty());
    assert(path_views(paths@).take(0) =~= Seq::empty());
    while i < paths.len()
        invariant
            i <= paths.len(),
            fetcher.base_url == old(fetcher).base_url,
            store == old(fetcher).client,
            base == old(fetcher).base_url@,
            start == old(fetcher).cache@,
            forall|html: String, path: String| call_requires(parse, (html, path)),
            fetched_in_turn(store, base, start, path_views(paths@).take(i as int), answers),
            store_asked(
                store,
                calls_in_turn(base, start, path_views(paths@).take(i as int), answers),
                fetcher.client,
            ),
            fetcher.cache@ == cache_in_turn(start, path_views(paths@).take(i as int), answers),
            all_read_by(parse, paths@.take(i as int), answers, results@),
        decreases paths.len() - i,
    {
        let ghost before = answers;
        let ghost done = results@;
        let ghost asked_before = fetcher.client;
        let ghost held = fetcher.cache@;
        let answer = fetcher.fetch(paths[i].as_str());
        let ghost given = answer;
        proof {
            assert(may_give_from(store, base, held, paths[i as int]@, given));
            lemma_store_asked_in_a_row(
                store,
                calls_in_turn(base, start, path_views(paths@).take(i as int), before),
                asked_before,
                calls_for(base, held, paths[i as int]@),
                fetcher.client,
            );
        }
        let path = paths[i].clone();
        let result = match answer {
            Ok(html) => parse(html, path),
            Err(e) => Err(e),
        };
        results.push((paths[i].clone(), result));
        proof {
            answers = before.push(given);
            let seen = paths@.take(i + 1);
            let views = path_views(paths@).take(i + 1);
            assert(views.drop_last() =~= path_views(paths@).take(i as int));
            assert(views.last() == paths[i as int]@);
            assert(seen.drop_last() =~= paths@.take(i as int));
            assert(answers.drop_last() =~= before);
            assert(seen.last() == paths[i as int]);
            assert(answers.last() == given);
            assert forall|k: int| 0 <= k < seen.len() implies (#[trigger] results@[k]).0 == seen[k]
                && read_by(parse, seen[k], answers[k], results@[k].1) by {
                if k < i {
                    assert(results@[k] == done[k]);
                    assert(answers[k] == before[k]);
                    assert(seen[k] == paths@.take(i as int)[k]);
                }
            }
        }
        i += 1;
    }
    assert(paths@.take(paths.len() as int) == paths@);
    assert(path_views(paths@).take(paths.len() as int) == path_views(paths@));
    let records = finish_records(results);
    assert(all_read_by(parse, paths@, answers, results@));
    records
}

} // verus!
