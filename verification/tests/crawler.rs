use opdb_scraper::category::{CategoryScraper, UrlCrawler};
use opdb_scraper::fetcher::{CannedPages, FetchHtml, HtmlFetcher};
use opdb_scraper::types::Error;

fn text(html: &str) -> Result<String, Error> {
    Ok(html.to_string())
}

fn page(links: &[&str]) -> Result<String, Error> {
    let mut html = String::from("<div><ul>");
    for link in links {
        html.push_str(&format!(
            "<li class=\"category-page__member\"><a href=\"{}\" class=\"category-page__member-link\">{}</a></li>",
            link, link
        ));
    }
    html.push_str("</ul></div>");
    Ok(html)
}

fn crawler(base_url: &str, pages: Vec<(&str, Result<String, Error>)>) -> CategoryScraper<CannedPages> {
    let pages = pages.into_iter().map(|(k, v)| (k.to_string(), v)).collect();
    CategoryScraper::new(HtmlFetcher::new(CannedPages::new(pages), base_url))
}

#[test]
fn canned_pages_answer_from_their_list() {
    let mut store = CannedPages::new(vec![
        ("a".to_string(), Ok("first".to_string())),
        ("b".to_string(), Err(Error::InvalidStructure("broken".to_string()))),
        ("a".to_string(), Ok("second".to_string())),
    ]);
    assert_eq!(store.fetch("a".to_string()).unwrap(), "first");
    assert!(matches!(store.fetch("b".to_string()), Err(Error::InvalidStructure(m)) if m == "broken"));
    assert!(matches!(store.fetch("c".to_string()), Err(Error::RequestError(m)) if m == "c"));
}

#[test]
fn the_crawler_asks_the_store_under_the_base_address() {
    let mut crawler = crawler(
        "http://wiki",
        vec![
            ("http://wiki/wiki/Category:A", page(&["/wiki/Category:B", "/a"])),
            ("http://wiki/wiki/Category:B", page(&["/b", "/wiki/Category:A"])),
        ],
    );
    assert_eq!(
        crawler.get_href("/wiki/Category:A").unwrap(),
        vec!["/wiki/Category:B".to_string(), "/a".to_string()]
    );
    assert_eq!(
        crawler.get_nested_href("/wiki/Category:A", true).unwrap(),
        vec!["/a".to_string(), "/b".to_string()]
    );
    assert!(matches!(crawler.get_href("/wiki/Category:C"), Err(Error::RequestError(m)) if m == "http://wiki/wiki/Category:C"));
}

#[test]
fn the_crawler_is_strict_or_lenient_about_failures() {
    let mut crawler = crawler(
        "",
        vec![
            ("/wiki/Category:A", page(&["/wiki/Category:B", "/a", "/wiki/Category:C"])),
            ("/wiki/Category:B", Err(Error::RequestError("down".to_string()))),
            ("/wiki/Category:C", page(&["/c"])),
        ],
    );
    match crawler.get_nested_href("/wiki/Category:A", true) {
        Err(Error::RequestError(msg)) => assert_eq!(msg, "%1 Error happened while crawling categories"),
        other => panic!("unexpected result: {:?}", other),
    }
    assert_eq!(
        crawler.get_nested_href("/wiki/Category:A", false).unwrap(),
        vec!["/a".to_string(), "/c".to_string()]
    );
}

#[test]
fn get_category_should_crawl_href_only() {
    let mut crawler = crawler(
        "",
        vec![(
            "/wiki/Category:Pirate_Crews_by_Sea",
            text(r##"
<div>
    <ul>
        <li class="category-page__member">
            <a href="/wiki/Category:Grand_Line_Pirate_Crews" class="category-page__member-link" title="Category:Grand Line Pirate Crews">
                Category:Grand Line Pirate Crews
            </a>
        </li>
        <li class="category-page__member">
            <a href="/wiki/Category:New_World_Pirate_Crews" class="category-page__member-link" title="Category:New World Pirate Crews">
                Category:New World Pirate Crews
            </a>
        </li>
    </ul>
</div>"##),
        )],
    );
    let result = crawler.get_href("/wiki/Category:Pirate_Crews_by_Sea").unwrap();
    assert_eq!(result.len(), 2);
}

#[test]
fn nested_category_should_crawl_all() {
    let mut crawler = crawler(
        "",
        vec![
            (
                "/wiki/Category:Pirate_Crews_by_Sea",
                text(r##"
    <div>
        <ul>
            <li class="category-page__member">
                <a href="/wiki/Category:Grand_Line_Pirate_Crews" class="category-page__member-link" title="Category:Grand Line Pirate Crews">
                    Category:Grand Line Pirate Crews
                </a>
            </li>
        </ul>
    </div>
    "##),
            ),
            (
                "/wiki/Category:Grand_Line_Pirate_Crews",
                text(r##"
    <div>
        <div>
            <ul>
                <li class="category-page__member">
                    <a href="/wiki/Category:Non-Canon_Grand_Line_Pirate_Crews" class="category-page__member-link" title="Category:Non-Canon Grand Line Pirate Crews">
                       Category:Non-Canon Grand Line Pirate Crews
                    </a>
                </li>
            </ul>
        </div>
        <div>
            <ul>
                <li class="category-page__member">
                    <a href="/wiki/Fallen_Monk_Pirates" class="category-page__member-link" title="Fallen Monk Pirates">
                        Fallen Monk Pirates
                    </a>
                </li>
            </ul>
        </div>
        <div>
            <ul>
                <li class="category-page__member">
                    <a href="/wiki/Category:New_World_Pirate_Crews" class="category-page__member-link" title="Category:New World Pirate Crews">
                    Category:New World Pirate Crews</a>
                </li>
            </ul>
        </div>
    </div>"##),
            ),
            (
                "/wiki/Category:New_World_Pirate_Crews",
                text(r##"
    <div>
        <ul>
            <li class="category-page__member">
                <a href="/wiki/Rocks_Pirates" class="category-page__member-link" title="Rocks Pirates">
                    Rocks Pirates
                </a>
            </li>
            <li class="category-page__member">
                <a href="/wiki/Category:Grand_Line_Pirate_Crews" class="category-page__member-link" title="Category:Grand Line Pirate Crews">
                    Category:Grand Line Pirate Crews
                </a>
            </li>
        </ul>
    </div>
                    "##),
            ),
            (
                "/wiki/Category:Some-categories",
                text(r#"<ul><li class="category-page__member"><a href="/wiki/somepages" class="category-age__member-link" title="wow">a page</a></li></ul>"#),
            ),
        ],
    );
    let result = crawler.get_nested_href("/wiki/Category:Pirate_Crews_by_Sea", true);
    assert!(result.is_err());
    let result = crawler.get_nested_href("/wiki/Category:Pirate_Crews_by_Sea", false);
    assert!(result.is_ok());
    assert_eq!(result.unwrap().len(), 2);
    let result = crawler.get_nested_href("/wiki/Category:Some-categories", true);
    assert!(result.is_ok());
}

#[test]
fn a_crawl_leaves_its_pages_in_the_cache_and_asks_for_each_once() {
    let mut crawler = crawler(
        "http://wiki",
        vec![
            ("http://wiki/wiki/Category:A", page(&["/wiki/Category:B", "/a", "/wiki/Category:Gone"])),
            ("http://wiki/wiki/Category:B", page(&["/b", "/wiki/Category:A"])),
        ],
    );
    assert_eq!(
        crawler.get_nested_href("/wiki/Category:A", false).unwrap(),
        vec!["/a".to_string(), "/b".to_string()]
    );
    assert!(crawler.fetcher.cache.contains_key("/wiki/Category:A"));
    assert!(crawler.fetcher.cache.contains_key("/wiki/Category:B"));
    assert!(!crawler.fetcher.cache.contains_key("/wiki/Category:Gone"));
    let mut asked = crawler.fetcher.client.asked.clone();
    asked.sort();
    assert_eq!(
        asked,
        vec![
            "http://wiki/wiki/Category:A".to_string(),
            "http://wiki/wiki/Category:B".to_string(),
            "http://wiki/wiki/Category:Gone".to_string(),
        ]
    );
    assert_eq!(
        crawler.get_nested_href("/wiki/Category:B", false).unwrap(),
        vec!["/b".to_string(), "/a".to_string()]
    );
    assert_eq!(crawler.fetcher.client.asked.len(), 4);
    assert_eq!(crawler.fetcher.client.asked[3], "http://wiki/wiki/Category:Gone");
}

#[test]
fn a_second_fetch_does_not_ask_the_store() {
    let pages = vec![("http://wiki/p".to_string(), Ok("text".to_string()))];
    let mut fetcher = HtmlFetcher::new(CannedPages::new(pages), "http://wiki");
    assert_eq!(fetcher.fetch("/p").unwrap(), "text");
    assert_eq!(fetcher.fetch("/p").unwrap(), "text");
    assert_eq!(fetcher.client.asked, vec!["http://wiki/p".to_string()]);
    assert!(fetcher.fetch("/q").is_err());
    assert!(fetcher.fetch("/q").is_err());
    assert_eq!(fetcher.fetch_only("/p").unwrap(), "text");
    assert_eq!(
        fetcher.client.asked,
        vec![
            "http://wiki/p".to_string(),
            "http://wiki/q".to_string(),
            "http://wiki/q".to_string(),
            "http://wiki/p".to_string(),
        ]
    );
}
