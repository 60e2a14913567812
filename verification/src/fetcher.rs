use crate::text::{concat, same_text};
use crate::types::{copy_of_error, Error};
use vstd::prelude::*;

verus! {

/// A store of documents: given the address of a page, it hands out the text of the page or
/// fails. What it may answer is for each store to say; nothing is promised of it here, not
/// even that it answers the same twice. A store may keep a history of what it was asked
/// for.
pub trait FetchHtml: Sized {
    /// `answer` is something the store may answer when it is asked for `url`, whatever it
    /// was asked before. A store that says nothing of its answers may answer anything.
    open spec fn answers(&self, url: Seq<char>, answer: Result<String, Error>) -> bool {
        true
    }

    /// The store keeps a history of the addresses that it was asked for.
    open spec fn keeps_history(&self) -> bool {
        false
    }

    /// The addresses that the store was asked for, in the order in which it was asked, if it
    /// keeps a history.
    open spec fn asked(&self) -> Seq<Seq<char>> {
        Seq::empty()
    }

    /// Asks the store for the page at `url`.
    fn fetch(&mut self, url: String) -> (r: Result<String, Error>)
        ensures
            old(self).answers(url@, r),
            forall|u: Seq<char>, a: Result<String, Error>|
                #![trigger final(self).answers(u, a)]
                #![trigger old(self).answers(u, a)]
                final(self).answers(u, a) == old(self).answers(u, a),
            old(self).keeps_history() ==> final(self).keeps_history() && final(self).asked()
                == old(self).asked().push(url@),
    ;
}

/// The stores `before` and `after` say the same of what they may answer.
pub open spec fn same_answers<C: FetchHtml>(before: C, after: C) -> bool {
    forall|url: Seq<char>, answer: Result<String, Error>|
        #![trigger after.answers(url, answer)]
        #![trigger before.answers(url, answer)]
        after.answers(url, answer) == before.answers(url, answer)
}

/// `after` is what the store `before` is once it was asked for the addresses `urls`, one
/// after another, and for nothing else: a store that was not asked is as it was; one that
/// was asked says of its answers what it said before, and its history, if it keeps one, has
/// grown by `urls`.
pub open spec fn store_asked<C: FetchHtml>(before: C, urls: Seq<Seq<char>>, after: C) -> bool {
    &&& urls.len() == 0 ==> after == before
    &&& same_answers(before, after)
    &&& before.keeps_history() ==> after.keeps_history() && after.asked() == before.asked() + urls
}

/// Asking a store for `first` and then for `second` is asking it for the two in a row.
pub proof fn lemma_store_asked_in_a_row<C: FetchHtml>(
    before: C,
    first: Seq<Seq<char>>,
    between: C,
    second: Seq<Seq<char>>,
    after: C,
)
    requires
        store_asked(before, first, between),
        store_asked(between, second, after),
    ensures
        store_asked(before, first + second, after),
{
    if before.keeps_history() {
        assert(before.asked() + (first + second) =~= (before.asked() + first) + second);
    }
    if (first + second).len() == 0 {
        assert(first.len() == 0 && second.len() == 0);
    }
}

/// The first position from `from` on at which `pages` holds an answer for `url`.
pub open spec fn canned_from(
    pages: Seq<(String, Result<String, Error>)>,
    url: Seq<char>,
    from: int,
) -> Option<int>
    decreases pages.len() - from,
{
    if from < 0 || from >= pages.len() {
        None
    } else if pages[from].0@ == url {
        Some(from)
    } else {
        canned_from(pages, url, from + 1)
    }
}

/// A store of documents that answers from a list: for each address the answer that the
/// list gives first, and a request error that names the address where it gives none.
/// It keeps a history of the addresses that it was asked for.
#[derive(Debug)]
pub struct CannedPages {
    pub pages: Vec<(String, Result<String, Error>)>,
    pub asked: Vec<String>,
}

impl CannedPages {
    /// A store that answers from `pages` and was asked for nothing yet.
    pub fn new(pages: Vec<(String, Result<String, Error>)>) -> (r: Self)
        ensures
            r.pages == pages,
            r.asked@.len() == 0,
    {
        CannedPages { pages, asked: Vec::new() }
    }
}

impl FetchHtml for CannedPages {
    open spec fn answers(&self, url: Seq<char>, answer: Result<String, Error>) -> bool {
        match canned_from(self.pages@, url, 0) {
            Some(i) => answer == self.pages[i].1,
            None => answer matches Err(e) && e.is_request(url),
        }
    }

    open spec fn keeps_history(&self) -> bool {
        true
    }

    open spec fn asked(&self) -> Seq<Seq<char>> {
        self.asked.deep_view()
    }

    fn fetch(&mut self, url: String) -> (r: Result<String, Error>) {
        let ghost history = self.asked.deep_view();
        self.asked.push(url.clone());
        assert(self.asked.deep_view() =~= history + seq![url@]);
        let mut i: usize = 0;
        while i < self.pages.len()
            invariant
                i <= self.pages.len(),
                self.pages == old(self).pages,
                self.asked.deep_view() == old(self).asked.deep_view() + seq![url@],
                canned_from(self.pages@, url@, 0) == canned_from(self.pages@, url@, i as int),
            decreases self.pages.len() - i,
        {
            if same_text(self.pages[i].0.as_str(), url.as_str()) {
                return match &self.pages[i].1 {
                    Ok(html) => Ok(html.clone()),
                    Err(e) => Err(copy_of_error(e)),
                };
            }
            i += 1;
        }
        Err(Error::RequestError(url))
    }
}

/// The text that the first of `entries` from `from` on gives for `key`.
pub open spec fn cached_from(entries: Seq<(String, String)>, key: Seq<char>, from: int) -> Option<
    Seq<char>,
>
    decreases entries.len() - from,
{
    if from < 0 || from >= entries.len() {
        None
    } else if entries[from].0@ == key {
        Some(entries[from].1@)
    } else {
        cached_from(entries, key, from + 1)
    }
}

/// The pages fetched so far, by path. A page, once in the cache, stays as it is.
#[derive(Debug)]
pub struct FetchCache {
    pub entries: Vec<(String, String)>,
}

impl View for FetchCache {
    type V = Map<Seq<char>, Seq<char>>;

    /// The texts that the cache holds, by path.
    open spec fn view(&self) -> Map<Seq<char>, Seq<char>> {
        Map::new(|k: Seq<char>| self.lookup(k) is Some, |k: Seq<char>| self.lookup(k)->0)
    }
}

/// What a cache that held `cache` holds once the page at `path` was asked for and `answer`
/// came back: a page that was handed out is held from then on, unless the cache held a text
/// for the path already; a failure leaves no trace.
pub open spec fn cache_after(
    cache: Map<Seq<char>, Seq<char>>,
    path: Seq<char>,
    answer: Result<String, Error>,
) -> Map<Seq<char>, Seq<char>> {
    match answer {
        Ok(html) => if cache.contains_key(path) {
            cache
        } else {
            cache.insert(path, html@)
        },
        Err(_) => cache,
    }
}

impl FetchCache {
    /// The text that the cache holds for `key`.
    pub open spec fn lookup(&self, key: Seq<char>) -> Option<Seq<char>> {
        cached_from(self.entries@, key, 0)
    }

    /// A cache that holds nothing.
    pub fn new() -> (r: FetchCache)
        ensures
            r@ == Map::<Seq<char>, Seq<char>>::empty(),
    {
        let r = FetchCache { entries: Vec::new() };
        assert(r@ =~= Map::<Seq<char>, Seq<char>>::empty());
        r
    }

    /// The text that the cache holds for `key`.
    pub fn get(&self, key: &str) -> (r: Option<String>)
        ensures
            match r {
                Some(v) => self@.contains_key(key@) && self@[key@] == v@,
                None => !self@.contains_key(key@),
            },
    {
        let mut i: usize = 0;
        while i < self.entries.len()
            invariant
                i <= self.entries.len(),
                cached_from(self.entries@, key@, 0) == cached_from(self.entries@, key@, i as int),
            decreases self.entries.len() - i,
        {
            if same_text(self.entries[i].0.as_str(), key) {
                return Some(self.entries[i].1.clone());
            }
            i += 1;
        }
        None
    }

    /// Whether the cache holds a text for `key`.
    pub fn contains_key(&self, key: &str) -> (r: bool)
        ensures
            r == self@.contains_key(key@),
    {
        self.get(key).is_some()
    }

    /// Puts `html` into the cache as the text for `key`, unless the cache holds a text for
    /// `key` already.
    pub fn insert(&mut self, key: String, html: String)
        ensures
            final(self)@ == cache_after(old(self)@, key@, Ok::<String, Error>(html)),
    {
        if self.contains_key(key.as_str()) {
            return ;
        }
        let ghost before = self.entries@;
        let ghost held = self@;
        self.entries.push((key, html));
        proof {
            assert forall|k: Seq<char>|
                #[trigger] self.lookup(k) == if k == key@ && cached_from(before, k, 0) is None {
                    Some(html@)
                } else {
                    cached_from(before, k, 0)
                } by {
                lemma_cached_push(before, (key, html), k, 0);
            }
            assert(self@ =~= held.insert(key@, html@));
        }
    }
}

proof fn lemma_cached_push(
    entries: Seq<(String, String)>,
    entry: (String, String),
    key: Seq<char>,
    from: int,
)
    requires
        0 <= from <= entries.len(),
    ensures
        cached_from(entries.push(entry), key, from) == match cached_from(entries, key, from) {
            Some(t) => Some(t),
            None => if entry.0@ == key {
                Some(entry.1@)
            } else {
                None
            },
        },
    decreases entries.len() - from,
{
    let longer = entries.push(entry);
    if from < entries.len() {
        assert(longer[from] == entries[from]);
        if entries[from].0@ != key {
            lemma_cached_push(entries, entry, key, from + 1);
        }
    } else {
        assert(longer[from] == entry);
        assert(cached_from(longer, key, from + 1) is None);
    }
}

/// `answer` is something that a fetch of the page at `path` may give when the cache holds
/// `cache`: the text that the cache holds for the path, or, where it holds none, what the
/// store `client` may answer when asked for the address made of `base_url` and `path`.
pub open spec fn may_give_from<C: FetchHtml>(
    client: C,
    base_url: Seq<char>,
    cache: Map<Seq<char>, Seq<char>>,
    path: Seq<char>,
    answer: Result<String, Error>,
) -> bool {
    if cache.contains_key(path) {
        answer matches Ok(v) && v@ == cache[path]
    } else {
        client.answers(base_url + path, answer)
    }
}

/// The addresses that the store is asked for when the page at `path` is fetched while the
/// cache holds `cache`: none where the cache holds the page, else the address made of
/// `base_url` and `path`.
pub open spec fn calls_for(
    base_url: Seq<char>,
    cache: Map<Seq<char>, Seq<char>>,
    path: Seq<char>,
) -> Seq<Seq<char>> {
    if cache.contains_key(path) {
        Seq::empty()
    } else {
        seq![base_url + path]
    }
}

/// A page that was fetched is asked for once: a second fetch of its path gives the text
/// that the first one gave, from the cache, and does not ask the store.
pub proof fn lemma_fetched_page_is_cached<C: FetchHtml>(
    client: C,
    base_url: Seq<char>,
    cache: Map<Seq<char>, Seq<char>>,
    path: Seq<char>,
    first: Result<String, Error>,
    second: Result<String, Error>,
)
    requires
        may_give_from(client, base_url, cache, path, first),
        first is Ok,
        may_give_from(client, base_url, cache_after(cache, path, first), path, second),
    ensures
        cache_after(cache, path, first).contains_key(path),
        second matches Ok(v) && v@ == first->Ok_0@,
        calls_for(base_url, cache_after(cache, path, first), path).len() == 0,
{
}

/// Fetches pages from a store of documents whose addresses start with `base_url`. One
/// way remembers what it fetched, the other always asks the store.
pub struct HtmlFetcher<C: FetchHtml> {
    pub base_url: String,
    pub client: C,
    pub cache: FetchCache,
}

impl<C: FetchHtml> HtmlFetcher<C> {
    /// A fetcher that asks `client` under `base_url` and has fetched nothing yet.
    pub fn new(client: C, base_url: &str) -> (r: Self)
        ensures
            r.base_url@ == base_url@,
            r.client == client,
            r.cache@ == Map::<Seq<char>, Seq<char>>::empty(),
    {
        HtmlFetcher { base_url: base_url.to_owned(), client, cache: FetchCache::new() }
    }

    /// `answer` is something that a fetch of the page at `path` may give: the text that the
    /// cache holds for it, or, where it holds none, what the store may answer when asked for
    /// the address made of `base_url` and `path`.
    pub open spec fn may_give(&self, path: Seq<char>, answer: Result<String, Error>) -> bool {
        may_give_from(self.client, self.base_url@, self.cache@, path, answer)
    }

    /// The page at `url_path`, from the cache where the cache holds it: the store is then not
    /// asked. Else the store is asked, once; what it hands out goes into the cache, a failure
    /// does not.
    pub fn fetch(&mut self, url_path: &str) -> (r: Result<String, Error>)
        ensures
            final(self).base_url == old(self).base_url,
            old(self).may_give(url_path@, r),
            final(self).cache@ == cache_after(old(self).cache@, url_path@, r),
            store_asked(
                old(self).client,
                calls_for(old(self).base_url@, old(self).cache@, url_path@),
                final(self).client,
            ),
    {
        match self.cache.get(url_path) {
            Some(html) => Ok(html),
            None => {
                let ghost history = self.client.asked();
                let ghost url = self.base_url@ + url_path@;
                let answer = self.client.fetch(concat(self.base_url.as_str(), url_path));
                assert(history + seq![url] =~= history.push(url));
                let html = answer?;
                self.cache.insert(url_path.to_owned(), html.clone());
                Ok(html)
            },
        }
    }

    /// The page at `url_path`, from the store, whatever the cache holds: the store is asked,
    /// once, for the address made of `base_url` and `url_path`.
    pub fn fetch_only(&mut self, url_path: &str) -> (r: Result<String, Error>)
        ensures
            final(self).base_url == old(self).base_url,
            final(self).cache == old(self).cache,
            old(self).client.answers(old(self).base_url@ + url_path@, r),
            store_asked(
                old(self).client,
                seq![old(self).base_url@ + url_path@],
                final(self).client,
            ),
    {
        let ghost history = self.client.asked();
        let ghost url = self.base_url@ + url_path@;
        assert(history + seq![url] =~= history.push(url));
        self.client.fetch(concat(self.base_url.as_str(), url_path))
    }
}

} // verus!
