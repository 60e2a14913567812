use crate::category::{crawl_over, crawled, is_outcome, page_is_due, pages_due, CrawlState};
use crate::crawl_laws::done;
use crate::fetcher::{cache_after, may_give_from, same_answers, FetchHtml, HtmlFetcher};
use crate::pipeline::{
    all_read_by, cache_in_turn, enriched, fetched_in_turn, in_stable_order, is_stable_order,
    left_of, path_views, read_by, successes,
};
use crate::text::{lemma_lex_le_antisymmetric, lemma_lex_le_total, lex_lt};
use crate::types::{Error, UrlTyped};
use vstd::prelude::*;
use vstd::seq_lib::seq_to_set_is_finite;
use vstd::set_lib::{lemma_int_range, lemma_subset_equality, set_int_range};

verus! {

/// The answers `a` and `b` say the same: the same text, or a failure of the same kind with
/// the same message.
pub open spec fn same_answer(a: Result<String, Error>, b: Result<String, Error>) -> bool {
    match (a, b) {
        (Ok(x), Ok(y)) => x@ == y@,
        (Err(e), Err(f)) => (e is RequestError) == (f is RequestError) && e.detail() == f.detail(),
        _ => false,
    }
}

/// The store `client` answers the same whenever it is asked for the same address.
pub open spec fn deterministic<C: FetchHtml>(client: C) -> bool {
    forall|url: Seq<char>, a: Result<String, Error>, b: Result<String, Error>|
        #![trigger client.answers(url, a), client.answers(url, b)]
        client.answers(url, a) && client.answers(url, b) ==> same_answer(a, b)
}

/// The store `client` may hand out the text `text` for the page at `path`.
pub open spec fn held_by_store<C: FetchHtml>(
    client: C,
    base_url: Seq<char>,
    path: Seq<char>,
    text: Seq<char>,
) -> bool {
    exists|html: String|
        #![trigger client.answers(base_url + path, Ok(html))]
        client.answers(base_url + path, Ok::<String, Error>(html)) && html@ == text
}

/// Whatever the cache `cache` holds is a text that the store `client` may hand out for that
/// page. The cache of a fetcher that has fetched nothing yet is such a cache, and so is what
/// fetching from the store leaves of one.
pub open spec fn cache_of_store<C: FetchHtml>(
    client: C,
    base_url: Seq<char>,
    cache: Map<Seq<char>, Seq<char>>,
) -> bool {
    forall|path: Seq<char>|
        #[trigger] cache.contains_key(path) ==> held_by_store(client, base_url, path, cache[path])
}

/// The results `a` and `b` of a task are alike: both records, alike as `alike` says, or both
/// failures.
pub open spec fn same_result<T>(
    alike: spec_fn(T, T) -> bool,
    a: Result<T, Error>,
    b: Result<T, Error>,
) -> bool {
    match (a, b) {
        (Ok(x), Ok(y)) => alike(x, y),
        (Err(_), Err(_)) => true,
        _ => false,
    }
}

/// What `parse` makes of the same page at the same path is alike, as `alike` says.
pub open spec fn parse_agrees<T, F: Fn(String, String) -> Result<T, Error>>(
    parse: F,
    alike: spec_fn(T, T) -> bool,
) -> bool {
    forall|html_a: String, path_a: String, r1: Result<T, Error>, html_b: String, path_b: String, r2: Result<T, Error>|
        #![trigger call_ensures(parse, (html_a, path_a), r1), call_ensures(parse, (html_b, path_b), r2)]
        html_a@ == html_b@ && path_a@ == path_b@ && call_ensures(parse, (html_a, path_a), r1) && call_ensures(
            parse,
            (html_b, path_b),
            r2,
        ) ==> same_result(alike, r1, r2)
}

/// The lists `a` and `b` are alike, record by record.
pub open spec fn all_alike<T>(alike: spec_fn(T, T) -> bool, a: Seq<T>, b: Seq<T>) -> bool {
    a.len() == b.len() && forall|i: int| 0 <= i < a.len() ==> alike(#[trigger] a[i], b[i])
}

/// Records that are alike have the same path.
pub open spec fn alike_by_path<T: UrlTyped>(alike: spec_fn(T, T) -> bool) -> bool {
    forall|x: T, y: T| #[trigger] alike(x, y) ==> x.path() == y.path()
}

/// Fetching the same pages in turn from a store that answers the same each time gives the
/// same answers, whatever the caches held of the store's texts before.
pub proof fn lemma_answers_agree<C: FetchHtml>(
    first: C,
    second: C,
    base_url: Seq<char>,
    c1: Map<Seq<char>, Seq<char>>,
    c2: Map<Seq<char>, Seq<char>>,
    paths: Seq<Seq<char>>,
    a1: Seq<Result<String, Error>>,
    a2: Seq<Result<String, Error>>,
)
    requires
        same_answers(first, second),
        deterministic(first),
        cache_of_store(first, base_url, c1),
        cache_of_store(first, base_url, c2),
        fetched_in_turn(first, base_url, c1, paths, a1),
        fetched_in_turn(second, base_url, c2, paths, a2),
    ensures
        forall|i: int| 0 <= i < paths.len() ==> same_answer(#[trigger] a1[i], a2[i]),
        cache_of_store(first, base_url, cache_in_turn(c1, paths, a1)),
        cache_of_store(first, base_url, cache_in_turn(c2, paths, a2)),
    decreases paths.len(),
{
    if paths.len() > 0 {
        let shorter = paths.drop_last();
        lemma_answers_agree(first, second, base_url, c1, c2, shorter, a1.drop_last(), a2.drop_last());
        let held_a = cache_in_turn(c1, shorter, a1.drop_last());
        let held_b = cache_in_turn(c2, shorter, a2.drop_last());
        let p = paths.last();
        let x1 = a1.last();
        let x2 = a2.last();
        assert(may_give_from(first, base_url, held_a, p, x1));
        assert(may_give_from(second, base_url, held_b, p, x2));
        let y1 = lemma_store_gave(first, first, base_url, held_a, p, x1);
        let y2 = lemma_store_gave(first, second, base_url, held_b, p, x2);
        assert(same_answer(y1, y2));
        assert(same_answer(x1, x2));
        assert forall|i: int| 0 <= i < paths.len() implies same_answer(#[trigger] a1[i], a2[i]) by {
            if i < paths.len() - 1 {
                assert(a1.drop_last()[i] == a1[i]);
                assert(a2.drop_last()[i] == a2[i]);
            }
        }
        lemma_cache_stays_of_store(first, base_url, held_a, p, x1, y1);
        lemma_cache_stays_of_store(first, base_url, held_b, p, x2, y2);
    }
}

/// What a fetch gave is, as a text or a failure, something that the store may answer.
proof fn lemma_store_gave<C: FetchHtml>(
    store: C,
    client: C,
    base_url: Seq<char>,
    held: Map<Seq<char>, Seq<char>>,
    path: Seq<char>,
    x: Result<String, Error>,
) -> (y: Result<String, Error>)
    requires
        same_answers(store, client),
        cache_of_store(store, base_url, held),
        may_give_from(client, base_url, held, path, x),
    ensures
        store.answers(base_url + path, y),
        same_answer(x, y),
{
    if held.contains_key(path) {
        assert(held_by_store(store, base_url, path, held[path]));
        let html = choose|html: String|
            store.answers(base_url + path, Ok::<String, Error>(html)) && html@ == held[path];
        Ok(html)
    } else {
        assert(client.answers(base_url + path, x));
        x
    }
}

proof fn lemma_cache_stays_of_store<C: FetchHtml>(
    store: C,
    base_url: Seq<char>,
    held: Map<Seq<char>, Seq<char>>,
    path: Seq<char>,
    x: Result<String, Error>,
    y: Result<String, Error>,
)
    requires
        cache_of_store(store, base_url, held),
        store.answers(base_url + path, y),
        same_answer(x, y),
    ensures
        cache_of_store(store, base_url, cache_after(held, path, x)),
{
    let left = cache_after(held, path, x);
    assert forall|q: Seq<char>| #[trigger] left.contains_key(q) implies held_by_store(
        store,
        base_url,
        q,
        left[q],
    ) by {
        if held.contains_key(q) {
            assert(held_by_store(store, base_url, q, held[q]));
        } else {
            assert(q == path);
            assert(store.answers(base_url + path, Ok::<String, Error>(y->Ok_0)));
        }
    }
}

/// The records of the tasks that succeeded are alike where the results of the tasks are.
proof fn lemma_successes_alike<T>(
    alike: spec_fn(T, T) -> bool,
    r1: Seq<(String, Result<T, Error>)>,
    r2: Seq<(String, Result<T, Error>)>,
)
    requires
        r1.len() == r2.len(),
        forall|i: int| 0 <= i < r1.len() ==> same_result(alike, (#[trigger] r1[i]).1, r2[i].1),
    ensures
        all_alike(alike, successes(r1), successes(r2)),
    decreases r1.len(),
{
    if r1.len() > 0 {
        let t1 = r1.drop_first();
        let t2 = r2.drop_first();
        assert forall|i: int| 0 <= i < t1.len() implies same_result(
            alike,
            (#[trigger] t1[i]).1,
            t2[i].1,
        ) by {
            assert(t1[i] == r1[i + 1]);
            assert(t2[i] == r2[i + 1]);
            assert(same_result(alike, r1[i + 1].1, r2[i + 1].1));
        }
        lemma_successes_alike(alike, t1, t2);
        assert(same_result(alike, r1[0].1, r2[0].1));
        let s1 = successes(t1);
        let s2 = successes(t2);
        match (r1[0].1, r2[0].1) {
            (Ok(x), Ok(y)) => {
                assert forall|i: int| 0 <= i < s1.len() + 1 implies alike(
                    #[trigger] (seq![x] + s1)[i],
                    (seq![y] + s2)[i],
                ) by {
                    if i > 0 {
                        assert((seq![x] + s1)[i] == s1[i - 1]);
                        assert((seq![y] + s2)[i] == s2[i - 1]);
                    }
                }
            },
            _ => {},
        }
    }
}

/// Every place of the list that `origin` arranges is the origin of some place.
proof fn lemma_origin_is_onto(origin: Seq<int>, n: int, i: int)
    requires
        origin.len() == n,
        origin.no_duplicates(),
        forall|p: int| 0 <= p < n ==> 0 <= #[trigger] origin[p] < n,
        0 <= i < n,
    ensures
        origin.contains(i),
{
    let s = origin.to_set();
    let full = set_int_range(0, n);
    origin.unique_seq_to_set();
    seq_to_set_is_finite(origin);
    lemma_int_range(0, n);
    assert(s.subset_of(full)) by {
        assert forall|x: int| s.contains(x) implies full.contains(x) by {
            assert(origin.contains(x));
            let p = choose|p: int| 0 <= p < origin.len() && origin[p] == x;
            assert(0 <= origin[p] < n);
        }
    }
    lemma_subset_equality(s, full);
    assert(full.contains(i));
    assert(s.contains(i));
}

/// Lists that are alike, record by record, come out alike when they are put in ascending
/// order of their paths: there is one way only to do that and keep the order of arrival
/// among records with the same path.
pub proof fn lemma_stable_orders_agree<T: UrlTyped>(
    alike: spec_fn(T, T) -> bool,
    s1: Seq<T>,
    s2: Seq<T>,
    r1: Seq<T>,
    r2: Seq<T>,
    o1: Seq<int>,
    o2: Seq<int>,
)
    requires
        alike_by_path(alike),
        all_alike(alike, s1, s2),
        is_stable_order(s1, r1, o1),
        is_stable_order(s2, r2, o2),
    ensures
        o1 == o2,
        all_alike(alike, r1, r2),
{
    let n = s1.len() as int;
    assert forall|p: int| 0 <= p < n implies o1[p] == o2[p] by {
        lemma_same_origin(alike, s1, s2, r1, r2, o1, o2, p);
    }
    assert(o1 =~= o2);
    assert forall|p: int| 0 <= p < r1.len() implies alike(#[trigger] r1[p], r2[p]) by {
        assert(r1[p] == s1[o1[p]]);
        assert(r2[p] == s2[o2[p]]);
        assert(alike(s1[o1[p]], s2[o1[p]]));
    }
}

proof fn lemma_same_origin<T: UrlTyped>(
    alike: spec_fn(T, T) -> bool,
    s1: Seq<T>,
    s2: Seq<T>,
    r1: Seq<T>,
    r2: Seq<T>,
    o1: Seq<int>,
    o2: Seq<int>,
    p: int,
)
    requires
        alike_by_path(alike),
        all_alike(alike, s1, s2),
        is_stable_order(s1, r1, o1),
        is_stable_order(s2, r2, o2),
        0 <= p < s1.len(),
    ensures
        o1[p] == o2[p],
    decreases p,
{
    let n = s1.len() as int;
    let i = o1[p];
    let j = o2[p];
    assert(0 <= i < n && r1[p] == s1[i]);
    assert(0 <= j < n && r2[p] == s2[j]);
    if i != j {
        assert(alike(s1[i], s2[i]));
        assert(alike(s1[j], s2[j]));
        lemma_origin_is_onto(o2, n, i);
        lemma_origin_is_onto(o1, n, j);
        let q = choose|q: int| 0 <= q < o2.len() && o2[q] == i;
        let t = choose|t: int| 0 <= t < o1.len() && o1[t] == j;
        assert(r2[q] == s2[o2[q]]);
        assert(r1[t] == s1[o1[t]]);
        if q < p {
            lemma_same_origin(alike, s1, s2, r1, r2, o1, o2, q);
            assert(o1[q] == i);
            assert(false);
        }
        if t < p {
            lemma_same_origin(alike, s1, s2, r1, r2, o1, o2, t);
            assert(o2[t] == j);
            assert(false);
        }
        assert(q > p && t > p);
        assert(in_stable_order(r2, o2, p, q));
        assert(in_stable_order(r1, o1, p, t));
        lemma_lex_le_total(s1[i].path(), s1[j].path());
        if !lex_lt(s1[i].path(), s1[j].path()) && !lex_lt(s1[j].path(), s1[i].path()) {
            lemma_lex_le_antisymmetric(s1[i].path(), s1[j].path());
        }
        assert(false);
    }
}

/// Two runs over one store that answers the same each time give lists that are alike, record
/// by record and in the same order, whatever the order in which their tasks ended: the
/// pages are the same, so are the answers, so is what is read off them, and there is one
/// way only to put the records in order.
pub proof fn lemma_runs_agree<C: FetchHtml, T: UrlTyped, F: Fn(String, String) -> Result<T, Error>>(
    alike: spec_fn(T, T) -> bool,
    parse: F,
    base_url: Seq<char>,
    first: C,
    c1: Map<Seq<char>, Seq<char>>,
    paths1: Seq<String>,
    r1: Seq<T>,
    left1: Map<Seq<char>, Seq<char>>,
    after1: C,
    second: C,
    c2: Map<Seq<char>, Seq<char>>,
    paths2: Seq<String>,
    r2: Seq<T>,
    left2: Map<Seq<char>, Seq<char>>,
    after2: C,
)
    requires
        same_answers(first, second),
        deterministic(first),
        cache_of_store(first, base_url, c1),
        cache_of_store(first, base_url, c2),
        path_views(paths1) == path_views(paths2),
        parse_agrees(parse, alike),
        alike_by_path(alike),
        enriched(first, base_url, c1, paths1, parse, r1, left1, after1),
        enriched(second, base_url, c2, paths2, parse, r2, left2, after2),
    ensures
        all_alike(alike, r1, r2),
        cache_of_store(first, base_url, left1),
        cache_of_store(first, base_url, left2),
{
    let (a1, res1) = choose|a: Seq<Result<String, Error>>, res: Seq<(String, Result<T, Error>)>|
        #![trigger all_read_by(parse, paths1, a, res)]
        fetched_in_turn(first, base_url, c1, path_views(paths1), a) && left1 == cache_in_turn(
            c1,
            path_views(paths1),
            a,
        ) && all_read_by(parse, paths1, a, res) && left_of(res, r1);
    let (a2, res2) = choose|a: Seq<Result<String, Error>>, res: Seq<(String, Result<T, Error>)>|
        #![trigger all_read_by(parse, paths2, a, res)]
        fetched_in_turn(second, base_url, c2, path_views(paths2), a) && left2 == cache_in_turn(
            c2,
            path_views(paths2),
            a,
        ) && all_read_by(parse, paths2, a, res) && left_of(res, r2);
    lemma_answers_agree(first, second, base_url, c1, c2, path_views(paths1), a1, a2);
    assert(paths1.len() == paths2.len()) by {
        assert(path_views(paths1).len() == path_views(paths2).len());
    }
    assert forall|i: int| 0 <= i < res1.len() implies same_result(
        alike,
        (#[trigger] res1[i]).1,
        res2[i].1,
    ) by {
        assert(same_answer(a1[i], a2[i]));
        assert(read_by(parse, paths1[i], a1[i], res1[i].1));
        assert(res2[i].0 == paths2[i]);
        assert(read_by(parse, paths2[i], a2[i], res2[i].1));
        assert(path_views(paths1)[i] == path_views(paths2)[i]);
        assert(paths1[i]@ == paths2[i]@);
    }
    lemma_successes_alike(alike, res1, res2);
    let o1 = choose|o: Seq<int>| is_stable_order(successes(res1), r1, o);
    let o2 = choose|o: Seq<int>| is_stable_order(successes(res2), r2, o);
    lemma_stable_orders_agree(alike, successes(res1), successes(res2), r1, r2, o1, o2);
}

proof fn lemma_due_prefix(root: Seq<char>, answers: Seq<Result<String, Error>>, k: int)
    requires
        0 <= k <= answers.len(),
    ensures
        pages_due(root, answers).len() == answers.len(),
        pages_due(root, answers).take(k) == pages_due(root, answers.take(k)),
    decreases answers.len(),
{
    if answers.len() > 0 {
        lemma_due_prefix(root, answers.drop_last(), if k < answers.len() {
            k
        } else {
            k - 1
        });
        if k < answers.len() {
            assert(answers.drop_last().take(k) =~= answers.take(k));
            assert(pages_due(root, answers).take(k) =~= pages_due(root, answers.drop_last()).take(
                k,
            ));
        } else {
            assert(answers.take(k) =~= answers);
            assert(pages_due(root, answers).take(k) =~= pages_due(root, answers));
        }
    } else {
        assert(answers.take(k) =~= answers);
        assert(pages_due(root, answers).take(k) =~= pages_due(root, answers));
    }
}

proof fn lemma_fetched_prefix<C: FetchHtml>(
    client: C,
    base_url: Seq<char>,
    cache: Map<Seq<char>, Seq<char>>,
    paths: Seq<Seq<char>>,
    answers: Seq<Result<String, Error>>,
    k: int,
)
    requires
        fetched_in_turn(client, base_url, cache, paths, answers),
        0 <= k <= paths.len(),
    ensures
        fetched_in_turn(client, base_url, cache, paths.take(k), answers.take(k)),
    decreases paths.len(),
{
    if k < paths.len() {
        lemma_fetched_prefix(client, base_url, cache, paths.drop_last(), answers.drop_last(), k);
        assert(paths.drop_last().take(k) =~= paths.take(k));
        assert(answers.drop_last().take(k) =~= answers.take(k));
    } else {
        assert(paths.take(k) =~= paths);
        assert(answers.take(k) =~= answers);
    }
}

/// Two crawls from one page over one store that answers the same each time go the same way
/// for as many rounds as both take.
proof fn lemma_rounds_agree<C: FetchHtml>(
    first: C,
    second: C,
    base_url: Seq<char>,
    c1: Map<Seq<char>, Seq<char>>,
    c2: Map<Seq<char>, Seq<char>>,
    root: Seq<char>,
    a1: Seq<Result<String, Error>>,
    a2: Seq<Result<String, Error>>,
    k: int,
)
    requires
        same_answers(first, second),
        deterministic(first),
        cache_of_store(first, base_url, c1),
        cache_of_store(first, base_url, c2),
        fetched_in_turn(first, base_url, c1, pages_due(root, a1), a1),
        fetched_in_turn(second, base_url, c2, pages_due(root, a2), a2),
        forall|j: int| 0 <= j < a1.len() ==> #[trigger] page_is_due(root, a1.take(j)),
        forall|j: int| 0 <= j < a2.len() ==> #[trigger] page_is_due(root, a2.take(j)),
        0 <= k <= a1.len(),
        k <= a2.len(),
    ensures
        crawl_over(root, a1.take(k)) == crawl_over(root, a2.take(k)),
        cache_of_store(first, base_url, cache_in_turn(c1, pages_due(root, a1.take(k)), a1.take(k))),
        cache_of_store(first, base_url, cache_in_turn(c2, pages_due(root, a2.take(k)), a2.take(k))),
    decreases k,
{
    if k == 0 {
        assert(a1.take(0) =~= Seq::empty());
        assert(a2.take(0) =~= Seq::empty());
    } else {
        lemma_rounds_agree(first, second, base_url, c1, c2, root, a1, a2, k - 1);
        let e1 = a1.take(k - 1);
        let e2 = a2.take(k - 1);
        let t1 = a1.take(k);
        let t2 = a2.take(k);
        assert(t1.drop_last() =~= e1);
        assert(t2.drop_last() =~= e2);
        assert(page_is_due(root, e1));
        assert(page_is_due(root, e2));
        lemma_due_prefix(root, a1, k);
        lemma_due_prefix(root, a2, k);
        lemma_fetched_prefix(first, base_url, c1, pages_due(root, a1), a1, k);
        lemma_fetched_prefix(second, base_url, c2, pages_due(root, a2), a2, k);
        let held_a = cache_in_turn(c1, pages_due(root, e1), e1);
        let held_b = cache_in_turn(c2, pages_due(root, e2), e2);
        let page = crawl_over(root, e1)->Ok_0.next_page()->0;
        assert(pages_due(root, t1).drop_last() =~= pages_due(root, e1));
        assert(pages_due(root, t2).drop_last() =~= pages_due(root, e2));
        assert(pages_due(root, t1).last() == page);
        assert(pages_due(root, t2).last() == page);
        let x1 = t1.last();
        let x2 = t2.last();
        assert(fetched_in_turn(first, base_url, c1, pages_due(root, t1), t1));
        assert(fetched_in_turn(second, base_url, c2, pages_due(root, t2), t2));
        assert(may_give_from(first, base_url, held_a, page, x1));
        assert(may_give_from(second, base_url, held_b, page, x2));
        let y1 = lemma_store_gave(first, first, base_url, held_a, page, x1);
        let y2 = lemma_store_gave(first, second, base_url, held_b, page, x2);
        assert(same_answer(y1, y2));
        assert(same_answer(x1, x2));
        lemma_cache_stays_of_store(first, base_url, held_a, page, x1, y1);
        lemma_cache_stays_of_store(first, base_url, held_b, page, x2, y2);
    }
}

/// The results `r1` and `r2` of two crawls say the same: the same links in the same order,
/// or a failure of the same kind with the same message.
pub open spec fn same_outcome(r1: Result<Vec<String>, Error>, r2: Result<Vec<String>, Error>) -> bool {
    match (r1, r2) {
        (Ok(x), Ok(y)) => x.deep_view() == y.deep_view(),
        (Err(e), Err(f)) => (e is RequestError) == (f is RequestError) && e.detail() == f.detail(),
        _ => false,
    }
}

/// Run twice from one page over one store that answers the same each time, a crawl gives
/// the same result: on fresh fetchers or on fetchers that hold texts of the store already.
pub proof fn lemma_crawls_agree<C: FetchHtml>(
    before1: HtmlFetcher<C>,
    a1: Seq<Result<String, Error>>,
    r1: Result<Vec<String>, Error>,
    after1: HtmlFetcher<C>,
    before2: HtmlFetcher<C>,
    a2: Seq<Result<String, Error>>,
    r2: Result<Vec<String>, Error>,
    after2: HtmlFetcher<C>,
    root: Seq<char>,
    strict: bool,
)
    requires
        crawled(before1, root, strict, a1, r1, after1),
        crawled(before2, root, strict, a2, r2, after2),
        before2.base_url@ == before1.base_url@,
        same_answers(before1.client, before2.client),
        deterministic(before1.client),
        cache_of_store(before1.client, before1.base_url@, before1.cache@),
        cache_of_store(before1.client, before1.base_url@, before2.cache@),
    ensures
        a1.len() == a2.len(),
        same_outcome(r1, r2),
        cache_of_store(before1.client, before1.base_url@, after1.cache@),
        cache_of_store(before1.client, before1.base_url@, after2.cache@),
{
    let k = if a1.len() <= a2.len() {
        a1.len() as int
    } else {
        a2.len() as int
    };
    lemma_rounds_agree(
        before1.client,
        before2.client,
        before1.base_url@,
        before1.cache@,
        before2.cache@,
        root,
        a1,
        a2,
        k,
    );
    if a1.len() < a2.len() {
        assert(a1.take(k) =~= a1);
        assert(page_is_due(root, a2.take(k)));
        assert(false);
    }
    if a2.len() < a1.len() {
        assert(a2.take(k) =~= a2);
        assert(page_is_due(root, a1.take(k)));
        assert(false);
    }
    assert(a1.take(k) =~= a1);
    assert(a2.take(k) =~= a2);
}

} // verus!
