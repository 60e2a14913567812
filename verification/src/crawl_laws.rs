use crate::category::{
    crawl_over, crawled, is_category, leaves, member_links_of, new_categories, page_is_due,
    pages_due, pending, rounds_due, CrawlState,
};
use crate::dom::document_nodes;
use crate::fetcher::{cache_after, may_give_from, FetchHtml, HtmlFetcher};
use crate::pipeline::{cache_in_turn, fetched_in_turn, lemma_fetched_pages_are_cached};
use crate::types::Error;
use vstd::prelude::*;
use vstd::seq_lib::seq_to_set_is_finite;
use vstd::set_lib::lemma_len_subset;

verus! {

/// One round of a crawl over the pages `pages`, which gives for each page that can be
/// fetched its member links: the next page is taken and fetched, and its links are sorted
/// or its failure recorded. Where no page is due, only the stack is cleared.
pub open spec fn step(pages: Map<Seq<char>, Seq<Seq<char>>>, s: CrawlState) -> CrawlState {
    match s.next_page() {
        None => s.after_next(),
        Some(p) => if pages.contains_key(p) {
            s.after_next().after_links(pages[p])
        } else {
            s.after_next().after_failure()
        },
    }
}

/// The state after `n` rounds.
pub open spec fn run(pages: Map<Seq<char>, Seq<Seq<char>>>, s: CrawlState, n: nat) -> CrawlState
    decreases n,
{
    if n == 0 {
        s
    } else {
        step(pages, run(pages, s, (n - 1) as nat))
    }
}

/// No page is due: the crawl has ended.
pub open spec fn done(s: CrawlState) -> bool {
    s.next_page() is None
}

/// Each page of `path` but the last can be fetched and links to the next one, which is a
/// category.
pub open spec fn is_path(pages: Map<Seq<char>, Seq<Seq<char>>>, path: Seq<Seq<char>>) -> bool {
    &&& path.len() > 0
    &&& forall|i: int|
        0 <= i < path.len() - 1 ==> pages.contains_key(#[trigger] path[i]) && pages[path[i]].contains(
            path[i + 1],
        ) && is_category(path[i + 1])
}

/// `page` is `root` or a category that can be reached from it by following category links
/// through pages that can be fetched.
pub open spec fn reachable(
    pages: Map<Seq<char>, Seq<Seq<char>>>,
    root: Seq<char>,
    page: Seq<char>,
) -> bool {
    exists|path: Seq<Seq<char>>| #[trigger]
        is_path(pages, path) && path[0] == root && path.last() == page
}

/// The links to what is no category on the pages `visited`, page after page. A page that
/// cannot be fetched gives none.
pub open spec fn found_on(pages: Map<Seq<char>, Seq<Seq<char>>>, visited: Seq<Seq<char>>) -> Seq<
    Seq<char>,
>
    decreases visited.len(),
{
    if visited.len() == 0 {
        Seq::empty()
    } else if pages.contains_key(visited.last()) {
        found_on(pages, visited.drop_last()) + leaves(pages[visited.last()])
    } else {
        found_on(pages, visited.drop_last())
    }
}

/// How many of the pages `visited` cannot be fetched.
pub open spec fn failed_on(pages: Map<Seq<char>, Seq<Seq<char>>>, visited: Seq<Seq<char>>) -> nat
    decreases visited.len(),
{
    if visited.len() == 0 {
        0
    } else if pages.contains_key(visited.last()) {
        failed_on(pages, visited.drop_last())
    } else {
        failed_on(pages, visited.drop_last()) + 1
    }
}

/// Every page of `list` is reachable from `root`.
pub open spec fn all_reachable(
    pages: Map<Seq<char>, Seq<Seq<char>>>,
    root: Seq<char>,
    list: Seq<Seq<char>>,
) -> bool {
    forall|i: int| 0 <= i < list.len() ==> reachable(pages, root, #[trigger] list[i])
}

/// Every category that a visited page links to is visited or on the stack.
pub open spec fn closed(pages: Map<Seq<char>, Seq<Seq<char>>>, s: CrawlState) -> bool {
    forall|p: Seq<char>, l: Seq<char>|
        #![trigger s.visited.contains(p), pages[p].contains(l)]
        s.visited.contains(p) && pages.contains_key(p) && pages[p].contains(l) && is_category(l)
            ==> s.visited.contains(l) || s.stack.contains(l)
}

/// What holds of every state of a crawl from `root` over `pages`.
pub open spec fn consistent(
    pages: Map<Seq<char>, Seq<Seq<char>>>,
    root: Seq<char>,
    s: CrawlState,
) -> bool {
    &&& s.visited.no_duplicates()
    &&& all_reachable(pages, root, s.visited)
    &&& all_reachable(pages, root, s.stack)
    &&& s.urls == found_on(pages, s.visited)
    &&& s.failures == failed_on(pages, s.visited)
    &&& closed(pages, s)
    &&& s.visited.contains(root) || s.stack.contains(root)
}

proof fn lemma_push_contains(list: Seq<Seq<char>>, x: Seq<char>, l: Seq<char>)
    ensures
        list.push(x).contains(l) <==> list.contains(l) || l == x,
{
    let longer = list.push(x);
    if longer.contains(l) {
        let i = choose|i: int| 0 <= i < longer.len() && longer[i] == l;
        if i < list.len() {
            assert(list[i] == l);
        }
    }
    if list.contains(l) {
        let i = choose|i: int| 0 <= i < list.len() && list[i] == l;
        assert(longer[i] == l);
    }
    if l == x {
        assert(longer[list.len() as int] == l);
    }
}

proof fn lemma_add_contains(a: Seq<Seq<char>>, b: Seq<Seq<char>>, l: Seq<char>)
    ensures
        (a + b).contains(l) <==> a.contains(l) || b.contains(l),
{
    let both = a + b;
    if both.contains(l) {
        let i = choose|i: int| 0 <= i < both.len() && both[i] == l;
        if i < a.len() {
            assert(a[i] == l);
        } else {
            assert(b[i - a.len()] == l);
        }
    }
    if a.contains(l) {
        let i = choose|i: int| 0 <= i < a.len() && a[i] == l;
        assert(both[i] == l);
    }
    if b.contains(l) {
        let i = choose|i: int| 0 <= i < b.len() && b[i] == l;
        assert(both[a.len() + i] == l);
    }
}

proof fn lemma_pending(stack: Seq<Seq<char>>, visited: Seq<Seq<char>>)
    ensures
        pending(stack, visited).len() <= stack.len(),
        pending(stack, visited) == stack.take(pending(stack, visited).len() as int),
        pending(stack, visited).len() > 0 ==> !visited.contains(pending(stack, visited).last()),
        forall|l: Seq<char>|
            stack.contains(l) ==> visited.contains(l) || #[trigger] pending(
                stack,
                visited,
            ).contains(l),
    decreases stack.len(),
{
    let rest = pending(stack, visited);
    if stack.len() > 0 && visited.contains(stack.last()) {
        let shorter = stack.drop_last();
        lemma_pending(shorter, visited);
        assert(shorter.take(rest.len() as int) =~= stack.take(rest.len() as int));
        assert forall|l: Seq<char>| stack.contains(l) implies visited.contains(l)
            || #[trigger] rest.contains(l) by {
            assert(stack =~= shorter.push(stack.last()));
            lemma_push_contains(shorter, stack.last(), l);
        }
    } else {
        assert(stack.take(stack.len() as int) =~= stack);
    }
}

proof fn lemma_new_categories(links: Seq<Seq<char>>, visited: Seq<Seq<char>>, l: Seq<char>)
    ensures
        new_categories(links, visited).contains(l) <==> links.contains(l) && is_category(l)
            && !visited.contains(l),
    decreases links.len(),
{
    if links.len() > 0 {
        let shorter = links.drop_last();
        lemma_new_categories(shorter, visited, l);
        assert(links =~= shorter.push(links.last()));
        lemma_push_contains(shorter, links.last(), l);
        lemma_push_contains(new_categories(shorter, visited), links.last(), l);
    }
}

proof fn lemma_extend_path(
    pages: Map<Seq<char>, Seq<Seq<char>>>,
    root: Seq<char>,
    page: Seq<char>,
    link: Seq<char>,
)
    requires
        reachable(pages, root, page),
        pages.contains_key(page),
        pages[page].contains(link),
        is_category(link),
    ensures
        reachable(pages, root, link),
{
    let path = choose|path: Seq<Seq<char>>| #[trigger]
        is_path(pages, path) && path[0] == root && path.last() == page;
    let longer = path.push(link);
    assert forall|i: int| 0 <= i < longer.len() - 1 implies pages.contains_key(
        #[trigger] longer[i],
    ) && pages[longer[i]].contains(longer[i + 1]) && is_category(longer[i + 1]) by {
        if i < path.len() - 1 {
            assert(longer[i] == path[i]);
            assert(longer[i + 1] == path[i + 1]);
        }
    }
    assert(is_path(pages, longer) && longer[0] == root && longer.last() == link);
}

/// The state in which a crawl starts is consistent.
pub proof fn lemma_start_consistent(pages: Map<Seq<char>, Seq<Seq<char>>>, root: Seq<char>)
    ensures
        consistent(pages, root, CrawlState::start(root)),
{
    let s = CrawlState::start(root);
    let path = seq![root];
    assert(is_path(pages, path) && path[0] == root && path.last() == root);
    assert(s.stack[0] == root);
    assert(s.stack.contains(root));
}

proof fn lemma_all_reachable_contains(
    pages: Map<Seq<char>, Seq<Seq<char>>>,
    root: Seq<char>,
    list: Seq<Seq<char>>,
    l: Seq<char>,
)
    requires
        all_reachable(pages, root, list),
        list.contains(l),
    ensures
        reachable(pages, root, l),
{
    let i = choose|i: int| 0 <= i < list.len() && list[i] == l;
    assert(reachable(pages, root, list[i]));
}

/// A round of the crawl leads from a consistent state to a consistent state.
pub proof fn lemma_step_consistent(
    pages: Map<Seq<char>, Seq<Seq<char>>>,
    root: Seq<char>,
    s: CrawlState,
)
    requires
        consistent(pages, root, s),
    ensures
        consistent(pages, root, step(pages, s)),
{
    let rest = pending(s.stack, s.visited);
    lemma_pending(s.stack, s.visited);
    let t = step(pages, s);
    assert forall|i: int| 0 <= i < rest.len() implies reachable(pages, root, #[trigger] rest[i]) by {
        assert(rest[i] == s.stack[i]);
    }
    if rest.len() == 0 {
        assert(t == CrawlState { stack: rest, ..s });
        assert forall|l: Seq<char>| s.stack.contains(l) implies s.visited.contains(l) by {
            assert(!rest.contains(l));
        }
        assert(closed(pages, t));
        assert(t.visited.contains(root));
    } else {
        let p = rest.last();
        let seen = s.visited.push(p);
        let below = rest.drop_last();
        assert(rest =~= below.push(p));
        assert(rest[rest.len() - 1] == p);
        assert(reachable(pages, root, p));
        assert(seen.no_duplicates());
        assert(all_reachable(pages, root, seen));
        assert(seen.drop_last() =~= s.visited);
        assert(seen.last() == p);
        let fresh = if pages.contains_key(p) {
            new_categories(pages[p], seen)
        } else {
            Seq::empty()
        };
        assert(t.visited == seen);
        assert(t.stack =~= below + fresh);
        assert(t.urls == found_on(pages, seen));
        assert(t.failures == failed_on(pages, seen));
        // whatever was visited or stacked before is visited or stacked now
        assert forall|l: Seq<char>| s.visited.contains(l) || s.stack.contains(l) implies seen.contains(
            l,
        ) || t.stack.contains(l) by {
            lemma_push_contains(s.visited, p, l);
            lemma_push_contains(below, p, l);
            lemma_add_contains(below, fresh, l);
            if s.stack.contains(l) && !s.visited.contains(l) {
                assert(rest.contains(l));
            }
        }
        assert forall|i: int| 0 <= i < t.stack.len() implies reachable(
            pages,
            root,
            #[trigger] t.stack[i],
        ) by {
            if i < below.len() {
                assert(t.stack[i] == rest[i]);
            } else {
                let l = fresh[i - below.len()];
                assert(t.stack[i] == l);
                assert(fresh.contains(l));
                lemma_new_categories(pages[p], seen, l);
                lemma_extend_path(pages, root, p, l);
            }
        }
        assert forall|q: Seq<char>, l: Seq<char>|
            #![trigger t.visited.contains(q), pages[q].contains(l)]
            t.visited.contains(q) && pages.contains_key(q) && pages[q].contains(l) && is_category(
                l,
            ) implies t.visited.contains(l) || t.stack.contains(l) by {
            lemma_push_contains(s.visited, p, q);
            if q == p {
                lemma_new_categories(pages[p], seen, l);
                lemma_add_contains(below, fresh, l);
            } else {
                assert(s.visited.contains(q));
                assert(s.visited.contains(l) || s.stack.contains(l));
            }
        }
        assert(closed(pages, t));
        assert(t.visited.contains(root) || t.stack.contains(root));
    }
}

/// Every state of a crawl is consistent.
pub proof fn lemma_run_consistent(pages: Map<Seq<char>, Seq<Seq<char>>>, root: Seq<char>, n: nat)
    ensures
        consistent(pages, root, run(pages, CrawlState::start(root), n)),
    decreases n,
{
    if n == 0 {
        lemma_start_consistent(pages, root);
    } else {
        lemma_run_consistent(pages, root, (n - 1) as nat);
        lemma_step_consistent(pages, root, run(pages, CrawlState::start(root), (n - 1) as nat));
    }
}

proof fn lemma_leaves(links: Seq<Seq<char>>, l: Seq<char>)
    ensures
        leaves(links).contains(l) <==> links.contains(l) && !is_category(l),
    decreases links.len(),
{
    if links.len() > 0 {
        let shorter = links.drop_last();
        lemma_leaves(shorter, l);
        assert(links =~= shorter.push(links.last()));
        lemma_push_contains(shorter, links.last(), l);
        lemma_push_contains(leaves(shorter), links.last(), l);
    }
}

/// `link` is a link to no category on one of the pages `visited`.
pub open spec fn found_on_some(
    pages: Map<Seq<char>, Seq<Seq<char>>>,
    visited: Seq<Seq<char>>,
    link: Seq<char>,
) -> bool {
    exists|p: Seq<char>|
        #![trigger visited.contains(p)]
        visited.contains(p) && pages.contains_key(p) && pages[p].contains(link) && !is_category(
            link,
        )
}

proof fn lemma_found_on(pages: Map<Seq<char>, Seq<Seq<char>>>, visited: Seq<Seq<char>>, l: Seq<char>)
    ensures
        found_on(pages, visited).contains(l) <==> found_on_some(pages, visited, l),
    decreases visited.len(),
{
    if visited.len() > 0 {
        let shorter = visited.drop_last();
        let last = visited.last();
        lemma_found_on(pages, shorter, l);
        assert(visited =~= shorter.push(last));
        if pages.contains_key(last) {
            lemma_add_contains(found_on(pages, shorter), leaves(pages[last]), l);
            lemma_leaves(pages[last], l);
        }
        if found_on_some(pages, shorter, l) {
            let p = choose|p: Seq<char>|
                #![trigger shorter.contains(p)]
                shorter.contains(p) && pages.contains_key(p) && pages[p].contains(l)
                    && !is_category(l);
            lemma_push_contains(shorter, last, p);
            assert(visited.contains(p));
        }
        if found_on_some(pages, visited, l) {
            let p = choose|p: Seq<char>|
                #![trigger visited.contains(p)]
                visited.contains(p) && pages.contains_key(p) && pages[p].contains(l)
                    && !is_category(l);
            lemma_push_contains(shorter, last, p);
            if p != last {
                assert(shorter.contains(p));
            }
        }
        assert(visited.contains(last)) by {
            lemma_push_contains(shorter, last, last);
        }
    }
}

proof fn lemma_failed_on(pages: Map<Seq<char>, Seq<Seq<char>>>, visited: Seq<Seq<char>>)
    ensures
        failed_on(pages, visited) > 0 <==> exists|p: Seq<char>|
            #![trigger visited.contains(p)]
            visited.contains(p) && !pages.contains_key(p),
    decreases visited.len(),
{
    if visited.len() > 0 {
        let shorter = visited.drop_last();
        let last = visited.last();
        lemma_failed_on(pages, shorter);
        assert(visited =~= shorter.push(last));
        lemma_push_contains(shorter, last, last);
        if failed_on(pages, visited) > 0 {
            if pages.contains_key(last) {
                let p = choose|p: Seq<char>|
                    #![trigger shorter.contains(p)]
                    shorter.contains(p) && !pages.contains_key(p);
                lemma_push_contains(shorter, last, p);
                assert(visited.contains(p));
            } else {
                assert(visited.contains(last));
            }
        }
        if exists|p: Seq<char>|
            #![trigger visited.contains(p)]
            visited.contains(p) && !pages.contains_key(p) {
            let p = choose|p: Seq<char>|
                #![trigger visited.contains(p)]
                visited.contains(p) && !pages.contains_key(p);
            lemma_push_contains(shorter, last, p);
            if p != last {
                assert(shorter.contains(p));
            }
        }
    }
}

proof fn lemma_path_visited(
    pages: Map<Seq<char>, Seq<Seq<char>>>,
    root: Seq<char>,
    s: CrawlState,
    path: Seq<Seq<char>>,
    k: int,
)
    requires
        consistent(pages, root, s),
        done(s),
        is_path(pages, path),
        path[0] == root,
        0 <= k < path.len(),
    ensures
        s.visited.contains(path[k]),
    decreases k,
{
    lemma_pending(s.stack, s.visited);
    assert forall|l: Seq<char>| s.stack.contains(l) implies s.visited.contains(l) by {
        assert(!pending(s.stack, s.visited).contains(l));
    }
    if k > 0 {
        lemma_path_visited(pages, root, s, path, k - 1);
        assert(pages.contains_key(path[k - 1]) && pages[path[k - 1]].contains(path[k])
            && is_category(path[k]));
    }
}

/// When a crawl from `root` over `pages` has ended, the pages it visited are `root` and
/// the categories that can be reached from it, each of them once; the links it found are
/// those of the visited pages to what is no category, page after page; and the failures it
/// counted are the visited pages that cannot be fetched. A category is visited once however
/// many pages link to it, also where the links form a cycle.
pub proof fn lemma_crawl_complete(pages: Map<Seq<char>, Seq<Seq<char>>>, root: Seq<char>, n: nat)
    requires
        done(run(pages, CrawlState::start(root), n)),
    ensures
        ({
            let s = run(pages, CrawlState::start(root), n);
            &&& s.visited.no_duplicates()
            &&& forall|p: Seq<char>| s.visited.contains(p) <==> reachable(pages, root, p)
            &&& s.urls == found_on(pages, s.visited)
            &&& s.failures == failed_on(pages, s.visited)
        }),
{
    let s = run(pages, CrawlState::start(root), n);
    lemma_run_consistent(pages, root, n);
    assert forall|p: Seq<char>| s.visited.contains(p) <==> reachable(pages, root, p) by {
        if s.visited.contains(p) {
            lemma_all_reachable_contains(pages, root, s.visited, p);
        }
        if reachable(pages, root, p) {
            let path = choose|path: Seq<Seq<char>>| #[trigger]
                is_path(pages, path) && path[0] == root && path.last() == p;
            lemma_path_visited(pages, root, s, path, path.len() - 1);
        }
    }
}

/// When a crawl has ended, a link is among those it found exactly if it is a link to what
/// is no category on a page that can be fetched and is `root` or a category reachable from
/// it.
pub proof fn lemma_crawl_finds_reachable_links(
    pages: Map<Seq<char>, Seq<Seq<char>>>,
    root: Seq<char>,
    n: nat,
    link: Seq<char>,
)
    requires
        done(run(pages, CrawlState::start(root), n)),
    ensures
        run(pages, CrawlState::start(root), n).urls.contains(link) <==> exists|p: Seq<char>|
            #![trigger reachable(pages, root, p)]
            reachable(pages, root, p) && pages.contains_key(p) && pages[p].contains(link)
                && !is_category(link),
{
    let s = run(pages, CrawlState::start(root), n);
    lemma_crawl_complete(pages, root, n);
    lemma_found_on(pages, s.visited, link);
    if s.urls.contains(link) {
        let p = choose|p: Seq<char>|
            #![trigger s.visited.contains(p)]
            s.visited.contains(p) && pages.contains_key(p) && pages[p].contains(link)
                && !is_category(link);
        assert(reachable(pages, root, p));
    }
    if exists|p: Seq<char>|
        #![trigger reachable(pages, root, p)]
        reachable(pages, root, p) && pages.contains_key(p) && pages[p].contains(link)
            && !is_category(link) {
        let p = choose|p: Seq<char>|
            #![trigger reachable(pages, root, p)]
            reachable(pages, root, p) && pages.contains_key(p) && pages[p].contains(link)
                && !is_category(link);
        assert(s.visited.contains(p));
    }
}

/// When a crawl has ended, a strict crawl fails exactly if one of the pages reachable from
/// `root` cannot be fetched, and its error tells how many; a cycle among the categories is
/// no failure. A lenient crawl gives the links it found in either case.
pub proof fn lemma_crawl_outcome(pages: Map<Seq<char>, Seq<Seq<char>>>, root: Seq<char>, n: nat)
    requires
        done(run(pages, CrawlState::start(root), n)),
    ensures
        ({
            let s = run(pages, CrawlState::start(root), n);
            &&& s.outcome(false) == Ok::<Seq<Seq<char>>, Seq<char>>(s.urls)
            &&& s.outcome(true) is Err <==> exists|p: Seq<char>|
                #![trigger reachable(pages, root, p)]
                reachable(pages, root, p) && !pages.contains_key(p)
            &&& s.outcome(true) is Err ==> s.failures == failed_on(pages, s.visited) && s.failures
                > 0
            &&& s.outcome(true) is Ok ==> s.outcome(true) == Ok::<Seq<Seq<char>>, Seq<char>>(
                s.urls,
            )
        }),
{
    let s = run(pages, CrawlState::start(root), n);
    lemma_crawl_complete(pages, root, n);
    lemma_failed_on(pages, s.visited);
    if s.failures > 0 {
        let p = choose|p: Seq<char>|
            #![trigger s.visited.contains(p)]
            s.visited.contains(p) && !pages.contains_key(p);
        assert(reachable(pages, root, p));
    }
    if exists|p: Seq<char>|
        #![trigger reachable(pages, root, p)]
        reachable(pages, root, p) && !pages.contains_key(p) {
        let p = choose|p: Seq<char>|
            #![trigger reachable(pages, root, p)]
            reachable(pages, root, p) && !pages.contains_key(p);
        assert(s.visited.contains(p));
    }
}

proof fn lemma_rounds(pages: Map<Seq<char>, Seq<Seq<char>>>, root: Seq<char>, n: nat)
    ensures
        (exists|k: nat| k <= n && done(run(pages, CrawlState::start(root), k))) || run(
            pages,
            CrawlState::start(root),
            n,
        ).visited.len() == n,
    decreases n,
{
    if n > 0 {
        lemma_rounds(pages, root, (n - 1) as nat);
        let before = run(pages, CrawlState::start(root), (n - 1) as nat);
        if !(exists|k: nat| k <= n - 1 && done(run(pages, CrawlState::start(root), k))) {
            assert(!done(before));
        } else {
            let k = choose|k: nat| k <= n - 1 && done(run(pages, CrawlState::start(root), k));
            assert(k <= n && done(run(pages, CrawlState::start(root), k)));
        }
    }
}

/// A crawl ends. Where the pages of `listing` include `root` and every category that can be
/// reached from it, a crawl from `root` has ended after one round for each of them, at the
/// latest: a cycle among the categories does not keep it going.
pub proof fn lemma_crawl_ends(
    pages: Map<Seq<char>, Seq<Seq<char>>>,
    root: Seq<char>,
    listing: Seq<Seq<char>>,
)
    requires
        forall|p: Seq<char>| reachable(pages, root, p) ==> listing.contains(p),
    ensures
        exists|k: nat| k <= listing.len() + 1 && done(run(pages, CrawlState::start(root), k)),
{
    let n = listing.len() + 1;
    lemma_rounds(pages, root, n);
    let s = run(pages, CrawlState::start(root), n);
    if s.visited.len() == n {
        lemma_run_consistent(pages, root, n);
        s.visited.unique_seq_to_set();
        seq_to_set_is_finite(listing);
        assert(s.visited.to_set().subset_of(listing.to_set())) by {
            assert forall|p: Seq<char>| s.visited.to_set().contains(p) implies listing.to_set().contains(
                p,
            ) by {
                assert(s.visited.contains(p));
                lemma_all_reachable_contains(pages, root, s.visited, p);
            }
        }
        lemma_len_subset(s.visited.to_set(), listing.to_set());
        listing.lemma_cardinality_of_set();
        assert(false);
    }
}

/// Once no page is due, further rounds change nothing of what the crawl visited, found and
/// counted.
pub proof fn lemma_ended_crawl_stays(
    pages: Map<Seq<char>, Seq<Seq<char>>>,
    root: Seq<char>,
    k: nat,
    n: nat,
)
    requires
        k <= n,
        done(run(pages, CrawlState::start(root), k)),
    ensures
        done(run(pages, CrawlState::start(root), n)),
        run(pages, CrawlState::start(root), n).visited == run(
            pages,
            CrawlState::start(root),
            k,
        ).visited,
        run(pages, CrawlState::start(root), n).urls == run(pages, CrawlState::start(root), k).urls,
        run(pages, CrawlState::start(root), n).failures == run(
            pages,
            CrawlState::start(root),
            k,
        ).failures,
    decreases n - k,
{
    if k < n {
        lemma_ended_crawl_stays(pages, root, k, (n - 1) as nat);
        let s = run(pages, CrawlState::start(root), (n - 1) as nat);
        let t = step(pages, s);
        assert(pending(s.stack, s.visited).len() == 0);
        assert(pending(t.stack, t.visited) =~= t.stack);
    }
}

/// The page with the text `text` is the page at `path` as `pages` tells it: `pages` knows the
/// page and gives the member links that are read off the text.
pub open spec fn listed_as(
    pages: Map<Seq<char>, Seq<Seq<char>>>,
    path: Seq<char>,
    text: Seq<char>,
) -> bool {
    pages.contains_key(path) && member_links_of(text, document_nodes(text)) == Ok::<
        Seq<Seq<char>>,
        Seq<char>,
    >(pages[path])
}

/// `answer` is what `pages` says of the page at `path`: a page that `pages` knows is handed
/// out with the member links that `pages` gives for it, a page that it does not know
/// fails.
pub open spec fn described_by(
    pages: Map<Seq<char>, Seq<Seq<char>>>,
    path: Seq<char>,
    answer: Result<String, Error>,
) -> bool {
    match answer {
        Ok(html) => listed_as(pages, path, html@),
        Err(_) => !pages.contains_key(path),
    }
}

/// Every page that the cache `cache` holds is the page as `pages` tells it.
pub open spec fn cache_described(
    pages: Map<Seq<char>, Seq<Seq<char>>>,
    cache: Map<Seq<char>, Seq<char>>,
) -> bool {
    forall|path: Seq<char>| #[trigger] cache.contains_key(path) ==> listed_as(pages, path, cache[path])
}

/// `pages` tells what `fetcher` gives: whatever its store may answer for a page, and
/// whatever its cache holds, is the page as `pages` tells it.
pub open spec fn describes<C: FetchHtml>(
    pages: Map<Seq<char>, Seq<Seq<char>>>,
    fetcher: HtmlFetcher<C>,
) -> bool {
    &&& cache_described(pages, fetcher.cache@)
    &&& forall|path: Seq<char>, answer: Result<String, Error>|
        #[trigger] fetcher.client.answers(fetcher.base_url@ + path, answer) ==> described_by(
            pages,
            path,
            answer,
        )
}

/// A crawl that fetches its pages from a fetcher that `pages` describes goes the way of
/// the crawl over `pages`, round by round, and leaves a cache that `pages` describes.
pub proof fn lemma_crawl_follows_pages<C: FetchHtml>(
    pages: Map<Seq<char>, Seq<Seq<char>>>,
    fetcher: HtmlFetcher<C>,
    root: Seq<char>,
    answers: Seq<Result<String, Error>>,
)
    requires
        describes(pages, fetcher),
        rounds_due(root, answers),
        fetched_in_turn(
            fetcher.client,
            fetcher.base_url@,
            fetcher.cache@,
            pages_due(root, answers),
            answers,
        ),
    ensures
        crawl_over(root, answers) == Ok::<CrawlState, Seq<char>>(
            run(pages, CrawlState::start(root), answers.len()),
        ),
        cache_described(pages, cache_in_turn(fetcher.cache@, pages_due(root, answers), answers)),
    decreases answers.len(),
{
    if answers.len() > 0 {
        let earlier = answers.drop_last();
        let due = pages_due(root, answers);
        assert(due.drop_last() =~= pages_due(root, earlier));
        assert forall|k: int| 0 <= k < earlier.len() implies #[trigger] page_is_due(
            root,
            earlier.take(k),
        ) by {
            assert(earlier.take(k) =~= answers.take(k));
            assert(page_is_due(root, answers.take(k)));
        }
        lemma_crawl_follows_pages(pages, fetcher, root, earlier);
        assert(answers.take(answers.len() - 1) =~= earlier);
        assert(page_is_due(root, answers.take(answers.len() - 1)));
        let s = run(pages, CrawlState::start(root), earlier.len());
        let page = s.next_page()->0;
        assert(due.last() == page);
        let held = cache_in_turn(fetcher.cache@, pages_due(root, earlier), earlier);
        let answer = answers.last();
        assert(may_give_from(fetcher.client, fetcher.base_url@, held, page, answer));
        assert(described_by(pages, page, answer)) by {
            if held.contains_key(page) {
                assert(listed_as(pages, page, held[page]));
            }
        }
        let left = cache_after(held, page, answer);
        assert forall|path: Seq<char>| #[trigger] left.contains_key(path) implies listed_as(
            pages,
            path,
            left[path],
        ) by {
            if held.contains_key(path) {
                assert(listed_as(pages, path, held[path]));
            }
        }
    }
}

/// Whatever the fetches give, no link to a category is among the links that a crawl finds.
pub proof fn lemma_crawl_finds_no_category(root: Seq<char>, answers: Seq<Result<String, Error>>)
    ensures
        crawl_over(root, answers) matches Ok(s) ==> forall|link: Seq<char>|
            s.urls.contains(link) ==> !is_category(link),
    decreases answers.len(),
{
    if answers.len() > 0 {
        lemma_crawl_finds_no_category(root, answers.drop_last());
        match (crawl_over(root, answers.drop_last()), crawl_over(root, answers)) {
            (Ok(before), Ok(s)) => {
                assert forall|link: Seq<char>| s.urls.contains(link) implies !is_category(link) by {
                    match answers.last() {
                        Ok(html) => {
                            let links = member_links_of(html@, document_nodes(html@))->Ok_0;
                            lemma_add_contains(before.urls, leaves(links), link);
                            lemma_leaves(links, link);
                        },
                        Err(_) => {},
                    }
                }
            },
            _ => {},
        }
    }
}

proof fn lemma_due_in_every_round(root: Seq<char>, answers: Seq<Result<String, Error>>)
    ensures
        pages_due(root, answers).len() == answers.len(),
        answers.len() > 0 ==> pages_due(root, answers)[0] == root,
    decreases answers.len(),
{
    if answers.len() > 0 {
        lemma_due_in_every_round(root, answers.drop_last());
        if answers.len() == 1 {
            let start = CrawlState::start(root);
            assert(answers.drop_last() =~= Seq::empty());
            assert(pending(start.stack, start.visited) =~= start.stack);
        }
    }
}

/// A crawl fetches by way of the cache: it begins with the page it starts from, and every
/// page that was handed out to it is in the cache afterwards, beside what the cache held
/// before.
pub proof fn lemma_crawl_caches_pages<C: FetchHtml>(
    before: HtmlFetcher<C>,
    root: Seq<char>,
    strict: bool,
    answers: Seq<Result<String, Error>>,
    r: Result<Vec<String>, Error>,
    after: HtmlFetcher<C>,
)
    requires
        crawled(before, root, strict, answers, r, after),
    ensures
        answers.len() > 0,
        pages_due(root, answers).len() == answers.len(),
        pages_due(root, answers)[0] == root,
        forall|i: int|
            0 <= i < answers.len() && (#[trigger] answers[i]) is Ok ==> after.cache@.contains_key(
                pages_due(root, answers)[i],
            ),
        forall|path: Seq<char>|
            #[trigger] before.cache@.contains_key(path) ==> after.cache@.contains_key(path)
                && after.cache@[path] == before.cache@[path],
{
    let start = CrawlState::start(root);
    assert(pending(start.stack, start.visited) =~= start.stack);
    assert(!done(start));
    lemma_due_in_every_round(root, answers);
    lemma_fetched_pages_are_cached(before.cache@, pages_due(root, answers), answers);
}

/// What a crawl gives with a fetcher that `pages` describes is what the crawl over `pages`
/// gives once no page is due: all that is said of such a crawl holds of the result.
pub proof fn lemma_crawled_over_pages<C: FetchHtml>(
    pages: Map<Seq<char>, Seq<Seq<char>>>,
    before: HtmlFetcher<C>,
    root: Seq<char>,
    strict: bool,
    answers: Seq<Result<String, Error>>,
    r: Result<Vec<String>, Error>,
    after: HtmlFetcher<C>,
)
    requires
        describes(pages, before),
        crawled(before, root, strict, answers, r, after),
    ensures
        done(run(pages, CrawlState::start(root), answers.len())),
        crate::category::is_outcome(
            r,
            run(pages, CrawlState::start(root), answers.len()).outcome(strict),
        ),
        cache_described(pages, after.cache@),
{
    lemma_crawl_follows_pages(pages, before, root, answers);
}

} // verus!
