use crate::crawl_laws::done;
use crate::dom::{marks_of, document_nodes, selected_all, Document, NodeView};
use crate::fetcher::{
    calls_for, lemma_store_asked_in_a_row, may_give_from, same_answers, store_asked, FetchHtml,
    HtmlFetcher,
};
use crate::pipeline::{cache_in_turn, calls_in_turn, fetched_in_turn};
use crate::text::{concat, contains, decimal, decimal_string, has_substring, same_text};
use crate::types::Error;
use crate::utils::{
    extract_page_href, hrefs_at, texts_result, MEMBER_LINK_SELECTOR,
};
use vstd::prelude::*;

verus! {

/// The links to the members of the category page with the text `html` and the nodes
/// `nodes`, in document order.
pub open spec fn member_links_of(html: Seq<char>, nodes: Seq<NodeView>) -> Result<
    Seq<Seq<char>>,
    Seq<char>,
> {
    match marks_of(html, MEMBER_LINK_SELECTOR@) {
        Err(e) => Err(e),
        Ok(m) => Ok(hrefs_at(nodes, selected_all(nodes, m))),
    }
}

/// The links to the members of the category page `html`, in document order. They lead to
/// pages and to other categories alike.
pub fn member_links(html: &str) -> (r: Result<Vec<String>, Error>)
    ensures
        texts_result(r, member_links_of(html@, document_nodes(html@))),
{
    let doc = Document::parse(html)?;
    extract_page_href(&doc, MEMBER_LINK_SELECTOR)
}

/// A link leads to a category page.
pub open spec fn is_category(link: Seq<char>) -> bool {
    has_substring(link, "Category:"@)
}

/// Those of `links` that lead to categories not yet in `visited`, in order.
pub open spec fn new_categories(links: Seq<Seq<char>>, visited: Seq<Seq<char>>) -> Seq<Seq<char>>
    decreases links.len(),
{
    if links.len() == 0 {
        Seq::empty()
    } else if is_category(links.last()) && !visited.contains(links.last()) {
        new_categories(links.drop_last(), visited).push(links.last())
    } else {
        new_categories(links.drop_last(), visited)
    }
}

/// Those of `links` that lead to no category, in order.
pub open spec fn leaves(links: Seq<Seq<char>>) -> Seq<Seq<char>>
    decreases links.len(),
{
    if links.len() == 0 {
        Seq::empty()
    } else if !is_category(links.last()) {
        leaves(links.drop_last()).push(links.last())
    } else {
        leaves(links.drop_last())
    }
}

/// `stack` without the visited pages on top of it: what is left has an unvisited page on
/// top, or is empty.
pub open spec fn pending(stack: Seq<Seq<char>>, visited: Seq<Seq<char>>) -> Seq<Seq<char>>
    decreases stack.len(),
{
    if stack.len() > 0 && visited.contains(stack.last()) {
        pending(stack.drop_last(), visited)
    } else {
        stack
    }
}

/// The state of a crawl, as a value of specifications.
pub ghost struct CrawlState {
    /// The categories still to be fetched, the next one last.
    pub stack: Seq<Seq<char>>,
    /// The pages fetched so far, in the order in which they were fetched.
    pub visited: Seq<Seq<char>>,
    /// The member links found so far.
    pub urls: Seq<Seq<char>>,
    /// How many pages could not be fetched.
    pub failures: nat,
}

impl CrawlState {
    /// The state in which a crawl from `root` starts.
    pub open spec fn start(root: Seq<char>) -> CrawlState {
        CrawlState { stack: seq![root], visited: Seq::empty(), urls: Seq::empty(), failures: 0 }
    }

    /// The page to fetch next: the topmost page of the stack that was not visited yet.
    pub open spec fn next_page(self) -> Option<Seq<char>> {
        let rest = pending(self.stack, self.visited);
        if rest.len() == 0 {
            None
        } else {
            Some(rest.last())
        }
    }

    /// The state once the next page was taken from the stack and marked as visited.
    pub open spec fn after_next(self) -> CrawlState {
        let rest = pending(self.stack, self.visited);
        if rest.len() == 0 {
            CrawlState { stack: rest, ..self }
        } else {
            CrawlState { stack: rest.drop_last(), visited: self.visited.push(rest.last()), ..self }
        }
    }

    /// The state once the member links `links` of the page just fetched were sorted: the
    /// categories not yet visited go onto the stack, what is no category goes to the result.
    pub open spec fn after_links(self, links: Seq<Seq<char>>) -> CrawlState {
        CrawlState {
            stack: self.stack + new_categories(links, self.visited),
            urls: self.urls + leaves(links),
            ..self
        }
    }

    /// The state once the page just taken could not be fetched.
    pub open spec fn after_failure(self) -> CrawlState {
        CrawlState { failures: self.failures + 1, ..self }
    }

    /// What the crawl returns when it ends in this state: the links found, unless pages
    /// failed and the crawl is strict. The error then tells how many failed.
    pub open spec fn outcome(self, strict: bool) -> Result<Seq<Seq<char>>, Seq<char>> {
        if self.failures == 0 || !strict {
            Ok(self.urls)
        } else {
            Err("%"@ + decimal(self.failures) + " Error happened while crawling categories"@)
        }
    }
}

/// A depth-first crawl of a tree of categories, one page at a time. Whoever fetches the
/// pages asks `next_page` which page is due and reports it with `page_fetched` or
/// `page_failed`, until no page is due; `finish` then gives the result.
#[derive(Debug)]
pub struct Crawl {
    pub stack: Vec<String>,
    pub visited: Vec<String>,
    pub urls: Vec<String>,
    pub errors: Vec<Error>,
}

impl View for Crawl {
    type V = CrawlState;

    open spec fn view(&self) -> CrawlState {
        CrawlState {
            stack: self.stack.deep_view(),
            visited: self.visited.deep_view(),
            urls: self.urls.deep_view(),
            failures: self.errors.len() as nat,
        }
    }
}

/// Whether `list` holds `text`.
pub fn holds(list: &Vec<String>, text: &str) -> (r: bool)
    ensures
        r == list.deep_view().contains(text@),
{
    let mut i: usize = 0;
    while i < list.len()
        invariant
            i <= list.len(),
            forall|k: int| 0 <= k < i ==> list.deep_view()[k] != text@,
        decreases list.len() - i,
    {
        if same_text(list[i].as_str(), text) {
            assert(list.deep_view()[i as int] == text@);
            return true;
        }
        i += 1;
    }
    false
}

impl Crawl {
    /// A crawl that starts at the page `root`.
    pub fn new(root: &str) -> (r: Crawl)
        ensures
            r@ == CrawlState::start(root@),
    {
        let mut stack: Vec<String> = Vec::new();
        stack.push(root.to_owned());
        let r = Crawl { stack, visited: Vec::new(), urls: Vec::new(), errors: Vec::new() };
        assert(r@.stack =~= seq![root@]);
        assert(r@.visited =~= Seq::empty());
        assert(r@.urls =~= Seq::empty());
        r
    }

    /// The page to fetch next, if one is due. It is taken from the stack and marked as
    /// visited.
    pub fn next_page(&mut self) -> (r: Option<String>)
        ensures
            match old(self)@.next_page() {
                Some(p) => r matches Some(t) && t@ == p,
                None => r is None,
            },
            final(self)@ == old(self)@.after_next(),
    {
        let ghost start = self@;
        loop
            invariant
                start == old(self)@,
                self@.visited == start.visited,
                self@.urls == start.urls,
                self@.failures == start.failures,
                pending(self@.stack, self@.visited) == pending(start.stack, start.visited),
            decreases self.stack.len(),
        {
            let ghost before = self.stack.deep_view();
            match self.stack.pop() {
                None => {
                    assert(before.len() == 0);
                    assert(pending(before, start.visited) =~= before);
                    assert(self@.stack =~= pending(start.stack, start.visited));
                    return None;
                },
                Some(top) => {
                    assert(before.last() == top@);
                    assert(self.stack.deep_view() =~= before.drop_last());
                    if !holds(&self.visited, top.as_str()) {
                        assert(pending(before, start.visited) == before);
                        let ghost seen = self.visited.deep_view();
                        self.visited.push(top.clone());
                        assert(self.visited.deep_view() =~= seen.push(top@));
                        return Some(top);
                    }
                },
            }
        }
    }

    /// Sorts the member links of the page just fetched: a category that was not visited yet
    /// goes onto the stack, a link to something else goes to the result.
    pub fn page_fetched(&mut self, links: Vec<String>)
        ensures
            final(self)@ == old(self)@.after_links(links.deep_view()),
    {
        let ghost start = self@;
        let ghost all = links.deep_view();
        let mut links = links;
        let mut i: usize = 0;
        assert(all.take(0) =~= Seq::empty());
        assert(start.stack + Seq::<Seq<char>>::empty() =~= start.stack);
        assert(start.urls + Seq::<Seq<char>>::empty() =~= start.urls);
        while i < links.len()
            invariant
                i <= links.len(),
                all == links.deep_view(),
                start == old(self)@,
                self@.visited == start.visited,
                self@.failures == start.failures,
                self@.stack == start.stack + new_categories(all.take(i as int), start.visited),
                self@.urls == start.urls + leaves(all.take(i as int)),
            decreases links.len() - i,
        {
            assert(all.take(i + 1).drop_last() == all.take(i as int));
            assert(all.take(i + 1).last() == links[i as int]@);
            let link = links[i].clone();
            let category = contains(link.as_str(), "Category:");
            if category && !holds(&self.visited, link.as_str()) {
                let ghost before = self.stack.deep_view();
                self.stack.push(link);
                assert(self.stack.deep_view() =~= before.push(link@));
                assert(self@.stack =~= start.stack + new_categories(
                    all.take(i + 1),
                    start.visited,
                ));
            } else if !category {
                let ghost before = self.urls.deep_view();
                self.urls.push(link);
                assert(self.urls.deep_view() =~= before.push(link@));
                assert(self@.urls =~= start.urls + leaves(all.take(i + 1)));
            }
            i += 1;
        }
        assert(all.take(links.len() as int) == all);
    }

    /// Records that the page just taken could not be fetched.
    pub fn page_failed(&mut self, error: Error)
        ensures
            final(self)@ == old(self)@.after_failure(),
    {
        self.errors.push(error);
    }

    /// The result of the crawl: the links found, or, for a strict crawl during which pages
    /// could not be fetched, a request error that tells how many.
    pub fn finish(self, strict: bool) -> (r: Result<Vec<String>, Error>)
        ensures
            match self@.outcome(strict) {
                Ok(urls) => r matches Ok(v) && v.deep_view() == urls,
                Err(msg) => r matches Err(e) && e.is_request(msg),
            },
    {
        if self.errors.len() == 0 || !strict {
            Ok(self.urls)
        } else {
            let mut msg = concat("%", decimal_string(self.errors.len() as u64).as_str());
            msg.append(" Error happened while crawling categories");
            Err(Error::RequestError(msg))
        }
    }
}

/// Finds the members of categories. What a crawler may give is for each crawler to say;
/// nothing is promised of it here.
pub trait UrlCrawler: Sized {
    /// `r` is something the crawler may give as the members of the category at `path`,
    /// whatever it was asked before.
    open spec fn gives_members(&self, path: Seq<char>, r: Result<Vec<String>, Error>) -> bool {
        true
    }

    /// `r` is something the crawler may give as the result of a crawl from `path`, `after`
    /// being the crawler then.
    open spec fn gives_nested(
        &self,
        path: Seq<char>,
        strict: bool,
        r: Result<Vec<String>, Error>,
        after: Self,
    ) -> bool {
        true
    }

    /// The links to the members of the category at `path`.
    fn get_href(&mut self, path: &str) -> (r: Result<Vec<String>, Error>)
        ensures
            old(self).gives_members(path@, r),
            forall|p: Seq<char>, x: Result<Vec<String>, Error>|
                #![trigger final(self).gives_members(p, x)]
                #![trigger old(self).gives_members(p, x)]
                final(self).gives_members(p, x) == old(self).gives_members(p, x),
    ;

    /// The links to what is no category among the members of the category at `path` and of
    /// the categories below it. A strict crawl fails if a page cannot be fetched.
    fn get_nested_href(&mut self, path: &str, strict: bool) -> (r: Result<Vec<String>, Error>)
        ensures
            old(self).gives_nested(path@, strict, r, *final(self)),
            forall|p: Seq<char>, x: Result<Vec<String>, Error>|
                #![trigger final(self).gives_members(p, x)]
                #![trigger old(self).gives_members(p, x)]
                final(self).gives_members(p, x) == old(self).gives_members(p, x),
    ;
}

/// The crawlers `before` and `after` say the same of the members that they may give.
pub open spec fn same_members<U: UrlCrawler>(before: U, after: U) -> bool {
    forall|path: Seq<char>, r: Result<Vec<String>, Error>|
        #![trigger after.gives_members(path, r)]
        #![trigger before.gives_members(path, r)]
        after.gives_members(path, r) == before.gives_members(path, r)
}

/// Crawls the categories of a wiki with a fetcher of its own.
pub struct CategoryScraper<C: FetchHtml> {
    pub fetcher: HtmlFetcher<C>,
}

/// What a crawl from `root` has come to after the rounds whose fetches gave `answers`: in
/// each round the page that is due is taken; a page that was handed out has its member
/// links sorted, a page that was not is counted as a failure. A page whose member links
/// cannot be read ends the crawl with the message of that structure error.
pub open spec fn crawl_over(root: Seq<char>, answers: Seq<Result<String, Error>>) -> Result<
    CrawlState,
    Seq<char>,
>
    decreases answers.len(),
{
    if answers.len() == 0 {
        Ok(CrawlState::start(root))
    } else {
        match crawl_over(root, answers.drop_last()) {
            Err(msg) => Err(msg),
            Ok(s) => match answers.last() {
                Err(_) => Ok(s.after_next().after_failure()),
                Ok(html) => match member_links_of(html@, document_nodes(html@)) {
                    Ok(links) => Ok(s.after_next().after_links(links)),
                    Err(msg) => Err(msg),
                },
            },
        }
    }
}

/// The pages that were due in the rounds of a crawl from `root` whose fetches gave
/// `answers`, round by round.
pub open spec fn pages_due(root: Seq<char>, answers: Seq<Result<String, Error>>) -> Seq<Seq<char>>
    decreases answers.len(),
{
    if answers.len() == 0 {
        Seq::empty()
    } else {
        pages_due(root, answers.drop_last()).push(
            match crawl_over(root, answers.drop_last()) {
                Ok(s) => match s.next_page() {
                    Some(page) => page,
                    None => Seq::empty(),
                },
                Err(_) => Seq::empty(),
            },
        )
    }
}

/// After the rounds of a crawl from `root` whose fetches gave `answers` a page is due.
pub open spec fn page_is_due(root: Seq<char>, answers: Seq<Result<String, Error>>) -> bool {
    crawl_over(root, answers) matches Ok(s) && s.next_page() is Some
}

/// In every round of a crawl from `root` whose fetches gave `answers` a page was due.
pub open spec fn rounds_due(root: Seq<char>, answers: Seq<Result<String, Error>>) -> bool {
    forall|k: int| 0 <= k < answers.len() ==> #[trigger] page_is_due(root, answers.take(k))
}

/// `r` is what a crawl gives that ends in a state with the outcome `outcome`.
pub open spec fn is_outcome(
    r: Result<Vec<String>, Error>,
    outcome: Result<Seq<Seq<char>>, Seq<char>>,
) -> bool {
    match outcome {
        Ok(urls) => r matches Ok(v) && v.deep_view() == urls,
        Err(msg) => r matches Err(e) && e.is_request(msg),
    }
}

/// `r` is the result of a crawl from `root` whose fetches gave `answers`, one in each
/// round, with a fetcher that was `before` and is `after`: each page that was due was
/// fetched, from the cache where the cache held it and from the store else, and each page
/// that was handed out is in the cache afterwards; the crawl went on until no page was due,
/// or until the member links of a page could not be read.
pub open spec fn crawled<C: FetchHtml>(
    before: HtmlFetcher<C>,
    root: Seq<char>,
    strict: bool,
    answers: Seq<Result<String, Error>>,
    r: Result<Vec<String>, Error>,
    after: HtmlFetcher<C>,
) -> bool {
    let pages = pages_due(root, answers);
    &&& after.base_url == before.base_url
    &&& rounds_due(root, answers)
    &&& fetched_in_turn(before.client, before.base_url@, before.cache@, pages, answers)
    &&& after.cache@ == cache_in_turn(before.cache@, pages, answers)
    &&& store_asked(
        before.client,
        calls_in_turn(before.base_url@, before.cache@, pages, answers),
        after.client,
    )
    &&& match crawl_over(root, answers) {
        Ok(s) => done(s) && is_outcome(r, s.outcome(strict)),
        Err(msg) => r matches Err(e) && e.is_structure(msg),
    }
}

impl<C: FetchHtml> CategoryScraper<C> {
    /// A crawler that fetches its pages with `fetcher`.
    pub fn new(fetcher: HtmlFetcher<C>) -> (r: Self)
        ensures
            r.fetcher == fetcher,
    {
        Self { fetcher }
    }
}

/// `r` is something that a fetcher of the kind of `fetcher` may give as the members of the
/// category at `path`: the store is asked for the page once, and what it answers is read.
pub open spec fn members_given<C: FetchHtml>(
    fetcher: HtmlFetcher<C>,
    path: Seq<char>,
    r: Result<Vec<String>, Error>,
) -> bool {
    exists|answer: Result<String, Error>|
        #![trigger fetcher.client.answers(fetcher.base_url@ + path, answer)]
        fetcher.client.answers(fetcher.base_url@ + path, answer) && members_read(answer, r)
}

proof fn lemma_same_members<C: FetchHtml>(before: HtmlFetcher<C>, after: HtmlFetcher<C>)
    requires
        after.base_url == before.base_url,
        same_answers(before.client, after.client),
    ensures
        forall|path: Seq<char>, r: Result<Vec<String>, Error>|
            #![trigger members_given(after, path, r)]
            #![trigger members_given(before, path, r)]
            members_given(after, path, r) == members_given(before, path, r),
{
    assert forall|path: Seq<char>, r: Result<Vec<String>, Error>|
        members_given(after, path, r) == members_given(before, path, r) by {
        if members_given(before, path, r) {
            let answer = choose|answer: Result<String, Error>|
                before.client.answers(before.base_url@ + path, answer) && members_read(answer, r);
            assert(after.client.answers(after.base_url@ + path, answer));
        }
        if members_given(after, path, r) {
            let answer = choose|answer: Result<String, Error>|
                after.client.answers(after.base_url@ + path, answer) && members_read(answer, r);
            assert(before.client.answers(before.base_url@ + path, answer));
        }
    }
}

/// `r` is what is read off the answer `answer` of the store: the member links of the page
/// that it handed out, or its failure.
pub open spec fn members_read(answer: Result<String, Error>, r: Result<Vec<String>, Error>) -> bool {
    match answer {
        Ok(html) => texts_result(r, member_links_of(html@, document_nodes(html@))),
        Err(e) => r == Err::<Vec<String>, Error>(e),
    }
}

impl<C: FetchHtml> UrlCrawler for CategoryScraper<C> {
    /// The store is asked for the page at `path` once, and what it answers is read.
    open spec fn gives_members(&self, path: Seq<char>, r: Result<Vec<String>, Error>) -> bool {
        members_given(self.fetcher, path, r)
    }

    /// The result is that of a crawl, round by round, over what the fetches of the pages
    /// that were due gave, whatever store is asked.
    open spec fn gives_nested(
        &self,
        path: Seq<char>,
        strict: bool,
        r: Result<Vec<String>, Error>,
        after: Self,
    ) -> bool {
        exists|answers: Seq<Result<String, Error>>| #[trigger]
            crawled(self.fetcher, path, strict, answers, r, after.fetcher)
    }

    fn get_href(&mut self, path: &str) -> (r: Result<Vec<String>, Error>) {
        let answer = self.fetcher.fetch_only(path);
        let ghost given = answer;
        let r = match answer {
            Ok(html) => member_links(html.as_str()),
            Err(e) => Err(e),
        };
        proof {
            assert(old(self).fetcher.client.answers(old(self).fetcher.base_url@ + path@, given));
            assert(members_read(given, r));
            lemma_same_members(old(self).fetcher, self.fetcher);
        }
        r
    }

    /// Crawls the categories depth first: asks the crawl which page is due, fetches it, from
    /// the cache where the cache holds it, and reports it, round by round, until no page is
    /// due.
    fn get_nested_href(&mut self, path: &str, strict: bool) -> (r: Result<Vec<String>, Error>) {
        let ghost first = self.fetcher;
        let ghost base = self.fetcher.base_url@;
        let mut crawl = Crawl::new(path);
        let ghost mut answers: Seq<Result<String, Error>> = Seq::empty();
        loop
            invariant
                first == old(self).fetcher,
                base == first.base_url@,
                self.fetcher.base_url == first.base_url,
                crawl_over(path@, answers) == Ok::<CrawlState, Seq<char>>(crawl@),
                rounds_due(path@, answers),
                fetched_in_turn(first.client, base, first.cache@, pages_due(path@, answers), answers),
                self.fetcher.cache@ == cache_in_turn(first.cache@, pages_due(path@, answers), answers),
                store_asked(
                    first.client,
                    calls_in_turn(base, first.cache@, pages_due(path@, answers), answers),
                    self.fetcher.client,
                ),
                crawl.visited.len() == crawl@.visited.len(),
            decreases usize::MAX - crawl.visited.len(),
        {
            let ghost before = crawl@;
            let ghost earlier = answers;
            let ghost due = pages_due(path@, earlier);
            let ghost store = self.fetcher.client;
            let ghost held = self.fetcher.cache@;
            let ghost visited_before = crawl.visited.len();
            assert(before.visited.len() == visited_before);
            match crawl.next_page() {
                None => {
                    let r = crawl.finish(strict);
                    proof {
                        assert(crawled(first, path@, strict, answers, r, self.fetcher));
                        lemma_same_members(old(self).fetcher, self.fetcher);
                    }
                    return r;
                },
                Some(page) => {
                    let ghost taken = crawl@;
                    assert(taken.visited == before.visited.push(page@));
                    assert(crawl.visited.len() == visited_before + 1);
                    let answer = self.fetcher.fetch(page.as_str());
                    proof {
                        answers = earlier.push(answer);
                        assert(answers.drop_last() =~= earlier);
                        assert(answers.last() == answer);
                        assert(pages_due(path@, answers) =~= due.push(page@));
                        assert(pages_due(path@, answers).drop_last() =~= due);
                        assert(may_give_from(first.client, base, held, page@, answer));
                        lemma_store_asked_in_a_row(
                            first.client,
                            calls_in_turn(base, first.cache@, due, earlier),
                            store,
                            calls_for(base, held, page@),
                            self.fetcher.client,
                        );
                        assert forall|k: int| 0 <= k < answers.len() implies #[trigger] page_is_due(
                            path@,
                            answers.take(k),
                        ) by {
                            if k < earlier.len() {
                                assert(answers.take(k) =~= earlier.take(k));
                                assert(page_is_due(path@, earlier.take(k)));
                            } else {
                                assert(answers.take(k) =~= earlier);
                            }
                        }
                    }
                    match answer {
                        Ok(html) => {
                            match member_links(html.as_str()) {
                                Ok(links) => {
                                    crawl.page_fetched(links);
                                },
                                Err(e) => {
                                    proof {
                                        assert(crawled(
                                            first,
                                            path@,
                                            strict,
                                            answers,
                                            Err::<Vec<String>, Error>(e),
                                            self.fetcher,
                                        ));
                                        lemma_same_members(old(self).fetcher, self.fetcher);
                                    }
                                    return Err(e);
                                },
                            }
                        },
                        Err(e) => {
                            crawl.page_failed(e);
                        },
                    }
                },
            }
        }
    }
}

} // verus!
