use opdb_scraper::fetcher::{FetchCache, FetchHtml, HtmlFetcher};
use opdb_scraper::types::Error;
use std::cell::Cell;
use std::collections::HashMap;

struct MockClient {
    res_req: HashMap<String, Result<String, Error>>,
    calls: Cell<usize>,
}

impl FetchHtml for MockClient {
    fn fetch(&mut self, url: String) -> Result<String, Error> {
        self.calls.set(self.calls.get() + 1);
        match self.res_req.get(&url) {
            Some(r) => r.clone(),
            None => Err(Error::RequestError(url)),
        }
    }
}

fn prepare_fetcher(arr: Vec<(String, Result<String, Error>)>, base_url: &str) -> HtmlFetcher<MockClient> {
    let client = MockClient { res_req: arr.into_iter().collect(), calls: Cell::new(0) };
    HtmlFetcher::new(client, base_url)
}

#[test]
fn valid_fetcher() {
    let mut fetcher = prepare_fetcher(vec![("url".to_string(), Ok("htmls".to_string()))], "");

    let resp = fetcher.fetch_only("url");
    assert!(resp.is_ok());
    assert_eq!(resp.unwrap(), "htmls");
    assert!(!fetcher.cache.contains_key("url"));

    let resp = fetcher.fetch("url");
    assert!(resp.is_ok());
    assert_eq!(resp.unwrap(), "htmls");
    assert!(fetcher.cache.contains_key("url"));

    let resp = fetcher.fetch("url");
    assert_eq!(resp.unwrap(), "htmls");
}

#[test]
fn a_cached_page_is_asked_for_once() {
    let mut fetcher = prepare_fetcher(
        vec![("http://wiki/a".to_string(), Ok("page a".to_string()))],
        "http://wiki",
    );
    assert_eq!(fetcher.fetch("/a").unwrap(), "page a");
    assert_eq!(fetcher.fetch("/a").unwrap(), "page a");
    assert_eq!(fetcher.client.calls.get(), 1);
    assert_eq!(fetcher.fetch_only("/a").unwrap(), "page a");
    assert_eq!(fetcher.fetch_only("/a").unwrap(), "page a");
    assert_eq!(fetcher.client.calls.get(), 3);
}

#[test]
fn a_failure_is_not_cached() {
    let mut fetcher = prepare_fetcher(
        vec![("/gone".to_string(), Err(Error::RequestError("gone".to_string())))],
        "",
    );
    assert!(matches!(fetcher.fetch("/gone"), Err(Error::RequestError(_))));
    assert!(!fetcher.cache.contains_key("/gone"));
    assert!(fetcher.fetch("/gone").is_err());
    assert_eq!(fetcher.client.calls.get(), 2);
}

#[test]
fn the_cache_keeps_the_first_text_for_a_key() {
    let mut cache = FetchCache::new();
    assert_eq!(cache.get("k"), None);
    cache.insert("k".to_string(), "first".to_string());
    cache.insert("other".to_string(), "x".to_string());
    cache.insert("k".to_string(), "second".to_string());
    assert_eq!(cache.get("k"), Some("first".to_string()));
    assert_eq!(cache.get("other"), Some("x".to_string()));
    assert_eq!(cache.get("K"), None);
}
