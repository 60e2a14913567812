use opdb_scraper::category::CategoryScraper;
use opdb_scraper::df::scraper::{DfScrapable, DfScraper};
use opdb_scraper::df::types::{DfSubType, DfType};
use opdb_scraper::fetcher::{CannedPages, HtmlFetcher};
use opdb_scraper::pipeline::enrich;
use opdb_scraper::pirates::scraper::PirateScraper;
use opdb_scraper::ships::scraper::{parse_ship_detail, ShipScraper};
use opdb_scraper::types::{Error, UrlTyped};

fn category_page(links: &[&str]) -> String {
    let mut html = String::from("<div><ul>");
    for link in links {
        html.push_str(&format!(
            "<li class=\"category-page__member\"><a href=\"{}\" class=\"category-page__member-link\">{}</a></li>",
            link, link
        ));
    }
    html.push_str("</ul></div>");
    html
}

fn detail_page(title: &str, picture: &str, stats: &[(&str, &str)], paragraph: &str) -> String {
    let mut html = format!(
        "<html><body><main><span class=\"mw-page-title-main\">{}</span><div id=\"mw-content-text\"><p></p><aside class=\"portable-infobox\"><figure class=\"pi-image\"><a href=\"{}\" class=\"image\"></a></figure><section>",
        title, picture
    );
    for (source, value) in stats {
        html.push_str(&format!(
            "<div class=\"pi-item pi-data\" data-source=\"{}\"><div class=\"pi-data-value\">{}</div></div>",
            source, value
        ));
    }
    html.push_str(&format!("</section></aside><p></p><p>{}</p></div></main></body></html>", paragraph));
    html
}

fn fetcher(base_url: &str, pages: &[(&str, String)]) -> HtmlFetcher<CannedPages> {
    let pages = pages
        .iter()
        .map(|(path, html)| (format!("{}{}", base_url, path), Ok(html.clone())))
        .collect();
    HtmlFetcher::new(CannedPages::new(pages), base_url)
}

fn pirate_pages() -> Vec<(&'static str, String)> {
    vec![
        ("/wiki/Category:Pirate_Crews_by_Sea", category_page(&["/wiki/Category:Grand_Line_Pirate_Crews"])),
        (
            "/wiki/Category:Grand_Line_Pirate_Crews",
            category_page(&[
                "/wiki/Category:Non-Canon_Grand_Line_Pirate_Crews",
                "/wiki/Fallen_Monk_Pirates",
                "/wiki/Category:New_World_Pirate_Crews",
            ]),
        ),
        (
            "/wiki/Category:New_World_Pirate_Crews",
            category_page(&["/wiki/New_Donquixote_Family", "/wiki/Rocks_Pirates", "/wiki/Lost_Pirates"]),
        ),
        (
            "/wiki/Fallen_Monk_Pirates",
            detail_page("Fallen Monk Pirates", "/image-path-212", &[("rname", "<i>Hakaisō Kaizokudan</i>")], "The Fallen Monk Pirates."),
        ),
        (
            "/wiki/Rocks_Pirates",
            detail_page("Rocks Pirates", "/image-path-213", &[("rname", "<i>Rokkusu Kaizokudan</i>")], "The Rocks Pirates."),
        ),
    ]
}

#[test]
fn the_pirate_scraper_reads_the_crews_sea_by_sea() {
    let pages = pirate_pages();
    let crawler = CategoryScraper::new(fetcher("http://wiki", &pages));
    let mut scraper = PirateScraper::new(fetcher("http://wiki", &pages), crawler);
    assert_eq!(
        scraper.crew_paths().unwrap(),
        vec!["/wiki/Fallen_Monk_Pirates".to_string(), "/wiki/Rocks_Pirates".to_string(), "/wiki/Lost_Pirates".to_string()]
    );
    let pirates = scraper.scrape().unwrap();
    assert_eq!(pirates.len(), 2);
    assert_eq!(pirates[0].get_path(), "/wiki/Fallen_Monk_Pirates");
    assert_eq!(pirates[0].name, "Hakaisō Kaizokudan");
    assert_eq!(pirates[1].get_path(), "/wiki/Rocks_Pirates");
    assert!(scraper.fetcher.cache.contains_key("/wiki/Rocks_Pirates"));
    assert!(!scraper.fetcher.cache.contains_key("/wiki/Lost_Pirates"));
}

#[test]
fn the_pirate_scraper_fails_with_its_crawler() {
    let pages: Vec<(&str, String)> = pirate_pages().into_iter().skip(1).collect();
    let crawler = CategoryScraper::new(fetcher("", &pages));
    let mut scraper = PirateScraper::new(fetcher("", &pages), crawler);
    match scraper.scrape() {
        Err(Error::RequestError(msg)) => assert_eq!(msg, "/wiki/Category:Pirate_Crews_by_Sea"),
        other => panic!("unexpected result: {:?}", other.map(|v| v.len())),
    }
}

fn ship_pages() -> Vec<(&'static str, String)> {
    vec![
        ("/wiki/Category:Ships", category_page(&["/wiki/Category:someone", "/wiki/Hanjomaru", "/wiki/Wreck"])),
        ("/wiki/Category:someone", category_page(&["/wiki/Northheim"])),
        (
            "/wiki/Hanjomaru",
            detail_page("Hanjomaru", "/image-path-213", &[("status", "Active")], "Hanjomaru is the Fallen Monk Pirates ship."),
        ),
        (
            "/wiki/Northheim",
            detail_page("Northheim", "/image-path-214", &[("status", "Unknown")], "The Northheim."),
        ),
        ("/wiki/Wreck", "<html><body>nothing</body></html>".to_string()),
    ]
}

#[test]
fn the_ship_scraper_crawls_and_reads_the_ships() {
    let pages = ship_pages();
    let crawler = CategoryScraper::new(fetcher("", &pages));
    let mut scraper = ShipScraper::new(fetcher("", &pages), crawler);
    let ships = scraper.scrape().unwrap();
    assert_eq!(ships.len(), 2);
    assert_eq!(ships[0].get_path(), "/wiki/Hanjomaru");
    assert_eq!(ships[0].status, "Active");
    assert_eq!(ships[1].get_path(), "/wiki/Northheim");
    let again = scraper.scrape().unwrap();
    assert_eq!(again.len(), 2);
    assert_eq!(again[1].status, "Unknown");
}

#[test]
fn the_ship_scraper_crawls_strictly() {
    let pages: Vec<(&str, String)> = ship_pages().into_iter().filter(|(p, _)| *p != "/wiki/Category:someone").collect();
    let crawler = CategoryScraper::new(fetcher("", &pages));
    let mut scraper = ShipScraper::new(fetcher("", &pages), crawler);
    match scraper.scrape() {
        Err(Error::RequestError(msg)) => assert_eq!(msg, "%1 Error happened while crawling categories"),
        other => panic!("unexpected result: {:?}", other.map(|v| v.len())),
    }
}

#[test]
fn enriching_reads_each_page_and_sorts_the_records() {
    let pages = ship_pages();
    let mut fetcher = fetcher("", &pages);
    let paths = vec!["/wiki/Northheim".to_string(), "/wiki/Gone".to_string(), "/wiki/Hanjomaru".to_string(), "/wiki/Wreck".to_string()];
    let ships = enrich(&mut fetcher, paths, parse_ship_detail);
    let urls: Vec<String> = ships.iter().map(|s| s.get_path()).collect();
    assert_eq!(urls, vec!["/wiki/Hanjomaru".to_string(), "/wiki/Northheim".to_string()]);
    assert!(fetcher.cache.contains_key("/wiki/Wreck"));
    assert!(!fetcher.cache.contains_key("/wiki/Gone"));
}

const TYPE_PAGE: &str = r#"<html><body>
    <h4><span id="Paramecia">Paramecia</span></h4><p>Paramecia Text</p>
    <h4><span id="Zoan">Zoan</span></h4><p>Zoan Text</p>
    <h4><span id="Logia">Logia</span></h4><p>Logia Text</p>
    <table class="wikitable"><tbody>
        <tr><th></th><th>Canon</th><th>Non-Canon</th><th>Total</th></tr>
        <tr><td>Paramecia</td><td>94 </td><td>48</td><td>142</td></tr>
        <tr><td>Zoan</td><td>55</td><td>7 </td><td> 62</td></tr>
    </tbody></table></body></html>"#;

fn list_page(anchor: &str, path: &str) -> String {
    format!(
        "<html><body><h4><span id=\"{}\">x</span></h4><dl></dl>\n<ul><li><a href=\"{}\">Fruit {}</a> (<i>English version: En</i>): Text.</li></ul></body></html>",
        anchor, path, path
    )
}

fn zoan_page() -> String {
    "<html><body><h4><span id=\"Ancient_Zoan\">a</span></h4><ul><li><a href=\"/zoan-a\">A</a></li></ul>\
     <h4><span id=\"Mythical_Zoan\">m</span></h4><ul></ul>\
     <h4><span id=\"List_of_Zoan-Type_Fruits\">z</span></h4><ul><li><a href=\"/zoan-a\">A</a></li><li><a href=\"/logia-1\">Twice</a></li></ul></body></html>"
        .to_string()
}

fn df_pages() -> Vec<(&'static str, String)> {
    vec![
        ("/wiki/Devil_Fruit", TYPE_PAGE.to_string()),
        ("/wiki/Logia", list_page("Logia-Types", "/logia-1")),
        ("/wiki/Zoan", zoan_page()),
        ("/wiki/Paramecia", list_page("Paramecia-Type_Fruits", "/paramecia-1")),
        (
            "/zoan-a",
            "<aside class=\"portable-infobox\"><figure class=\"pi-image\"><a href=\"/pic-a?cb=1\" class=\"image\"></a></figure></aside>".to_string(),
        ),
    ]
}

#[test]
fn the_fruit_scraper_reads_the_classes() {
    let mut scraper = DfScraper::new(fetcher("http://wiki", &df_pages()));
    let infos = scraper.get_dftype_info().unwrap();
    assert_eq!(infos.len(), 2);
    assert_eq!(infos[1].to_text(), "(df_type: Zoan, cannon: 55, non-cannon: 7, description: Zoan Text)");
    assert!(scraper.fetcher.cache.contains_key("/wiki/Devil_Fruit"));
    let mut empty = DfScraper::new(fetcher("", &[]));
    assert!(matches!(empty.get_dftype_info(), Err(Error::RequestError(m)) if m == "/wiki/Devil_Fruit"));
}

#[test]
fn the_fruit_scraper_lists_the_fruits_with_their_pictures() {
    let mut scraper = DfScraper::new(fetcher("", &df_pages()));
    let fruits = scraper.get_df_list().unwrap();
    let paths: Vec<&str> = fruits.iter().map(|f| f.df_url.as_str()).collect();
    assert_eq!(paths, vec!["/logia-1", "/paramecia-1", "/zoan-a"]);
    assert_eq!(fruits[0].df_type, DfType::Zoan);
    assert_eq!(fruits[0].name, "Twice");
    assert_eq!(fruits[0].pic_url, "");
    assert_eq!(fruits[1].df_type, DfType::Paramecia);
    assert_eq!(fruits[1].en_name, "En");
    assert_eq!(fruits[1].description, "Text.");
    assert_eq!(fruits[2].df_sub_type, Some(DfSubType::AncientZoan));
    assert_eq!(fruits[2].pic_url, "/pic-a");
    let (table, listed) = scraper.read_classes().unwrap();
    assert_eq!(table.fruits.len(), 3);
    assert_eq!(listed, vec!["/logia-1".to_string(), "/zoan-a".to_string(), "/logia-1".to_string(), "/paramecia-1".to_string()]);
}

#[test]
fn the_fruit_scraper_fails_with_a_class_page() {
    let pages: Vec<(&str, String)> = df_pages().into_iter().filter(|(p, _)| *p != "/wiki/Zoan").collect();
    let mut scraper = DfScraper::new(fetcher("", &pages));
    assert!(matches!(scraper.get_df_list(), Err(Error::RequestError(m)) if m == "/wiki/Zoan"));
    assert!(scraper.fetcher.cache.contains_key("/wiki/Logia"));
    let mut broken = df_pages();
    broken[3].1 = "<html></html>".to_string();
    let mut scraper = DfScraper::new(fetcher("", &broken));
    assert!(matches!(scraper.get_df_list(), Err(Error::InvalidStructure(m)) if m == "invalid sibling node"));
}

#[test]
fn the_pirate_scraper_fails_with_the_first_failure_of_its_crawler() {
    let mut pages = pirate_pages();
    pages.retain(|(path, _)| *path != "/wiki/Category:New_World_Pirate_Crews");
    let crawler = CategoryScraper::new(fetcher("", &pages));
    let mut scraper = PirateScraper::new(fetcher("", &pages), crawler);
    match scraper.scrape() {
        Err(Error::RequestError(msg)) => assert_eq!(msg, "/wiki/Category:New_World_Pirate_Crews"),
        other => panic!("unexpected result: {:?}", other.map(|v| v.len())),
    }
    assert_eq!(
        scraper.category_crawler.fetcher.client.asked,
        vec![
            "/wiki/Category:Pirate_Crews_by_Sea".to_string(),
            "/wiki/Category:Grand_Line_Pirate_Crews".to_string(),
            "/wiki/Category:New_World_Pirate_Crews".to_string(),
        ]
    );
    assert!(scraper.fetcher.client.asked.is_empty());
}
