use opdb_scraper::category::{member_links, Crawl};
use opdb_scraper::types::Error;
use std::collections::HashMap;

fn category_page(links: &[&str]) -> String {
    let mut html = String::from("<div><ul>");
    for link in links {
        html.push_str(&format!(
            "<li class=\"category-page__member\"><a href=\"{}\" class=\"category-page__member-link\">{}</a></li>",
            link, link
        ));
    }
    html.push_str("</ul></div>");
    html
}

fn store(pages: &[(&str, String)]) -> HashMap<String, String> {
    pages.iter().map(|(k, v)| (k.to_string(), v.clone())).collect()
}

fn crawl(pages: &HashMap<String, String>, root: &str, strict: bool) -> (Result<Vec<String>, Error>, Vec<String>) {
    let mut crawl = Crawl::new(root);
    let mut fetched = vec![];
    while let Some(page) = crawl.next_page() {
        fetched.push(page.clone());
        match pages.get(&page) {
            Some(html) => crawl.page_fetched(member_links(html).unwrap()),
            None => crawl.page_failed(Error::RequestError(page)),
        }
    }
    (crawl.finish(strict), fetched)
}

#[test]
fn a_cycle_ends_the_crawl_and_is_no_failure() {
    let pages = store(&[
        ("/wiki/Category:A", category_page(&["/wiki/Category:B"])),
        ("/wiki/Category:B", category_page(&["/fruit1", "/wiki/Category:A"])),
    ]);
    let (lenient, fetched) = crawl(&pages, "/wiki/Category:A", false);
    assert_eq!(lenient.unwrap(), vec!["/fruit1".to_string()]);
    assert_eq!(fetched, vec!["/wiki/Category:A".to_string(), "/wiki/Category:B".to_string()]);
    let (strict, _) = crawl(&pages, "/wiki/Category:A", true);
    assert_eq!(strict.unwrap(), vec!["/fruit1".to_string()]);
}

#[test]
fn a_failed_page_fails_a_strict_crawl_only() {
    let pages = store(&[
        (
            "/wiki/Category:Root",
            category_page(&["/wiki/Category:Gone", "/leaf1", "/wiki/Category:There", "/wiki/Category:Lost"]),
        ),
        ("/wiki/Category:There", category_page(&["/leaf2", "/leaf3"])),
    ]);
    let (strict, _) = crawl(&pages, "/wiki/Category:Root", true);
    match strict {
        Err(Error::RequestError(msg)) => {
            assert_eq!(msg, "%2 Error happened while crawling categories")
        }
        other => panic!("unexpected result: {:?}", other),
    }
    let (lenient, _) = crawl(&pages, "/wiki/Category:Root", false);
    let mut links = lenient.unwrap();
    links.sort();
    assert_eq!(links, vec!["/leaf1".to_string(), "/leaf2".to_string(), "/leaf3".to_string()]);
}

#[test]
fn crawl_goes_depth_first_from_the_last_link() {
    let pages = store(&[
        ("/wiki/Category:Root", category_page(&["/wiki/Category:A", "/r", "/wiki/Category:B"])),
        ("/wiki/Category:A", category_page(&["/a"])),
        ("/wiki/Category:B", category_page(&["/wiki/Category:C", "/b"])),
        ("/wiki/Category:C", category_page(&["/c"])),
    ]);
    let (result, fetched) = crawl(&pages, "/wiki/Category:Root", true);
    assert_eq!(
        fetched,
        vec![
            "/wiki/Category:Root".to_string(),
            "/wiki/Category:B".to_string(),
            "/wiki/Category:C".to_string(),
            "/wiki/Category:A".to_string(),
        ]
    );
    assert_eq!(
        result.unwrap(),
        vec!["/r".to_string(), "/b".to_string(), "/c".to_string(), "/a".to_string()]
    );
}

#[test]
fn a_leaf_reached_twice_is_listed_twice_and_a_category_fetched_once() {
    let pages = store(&[
        ("/wiki/Category:Root", category_page(&["/wiki/Category:A", "/wiki/Category:B"])),
        ("/wiki/Category:A", category_page(&["/x", "/wiki/Category:Shared"])),
        ("/wiki/Category:B", category_page(&["/x", "/wiki/Category:Shared"])),
        ("/wiki/Category:Shared", category_page(&["/s"])),
    ]);
    let (result, fetched) = crawl(&pages, "/wiki/Category:Root", true);
    let mut links = result.unwrap();
    links.sort();
    assert_eq!(links, vec!["/s".to_string(), "/x".to_string(), "/x".to_string()]);
    assert_eq!(fetched.iter().filter(|p| p.as_str() == "/wiki/Category:Shared").count(), 1);
}

#[test]
fn a_root_that_cannot_be_fetched_gives_nothing() {
    let pages = store(&[]);
    let (strict, _) = crawl(&pages, "/wiki/Category:Root", true);
    match strict {
        Err(Error::RequestError(msg)) => {
            assert_eq!(msg, "%1 Error happened while crawling categories")
        }
        other => panic!("unexpected result: {:?}", other),
    }
    let (lenient, _) = crawl(&pages, "/wiki/Category:Root", false);
    assert_eq!(lenient.unwrap(), Vec::<String>::new());
}
