use opdb_scraper::category::{member_links, Crawl};
use opdb_scraper::pipeline::{
    collect_successes, finish_records, may_start, sort_by_path, FanOut, SHIP_FETCH_LIMIT,
};
use opdb_scraper::pirates::models::Pirate;
use opdb_scraper::pirates::scraper::{
    add_nested_members, keep_canon, keep_crews, parse_pirate_detail, plan_sea, take_nested_category,
    CREWS_BY_SEA,
};
use opdb_scraper::ships::models::Ship;
use opdb_scraper::ships::scraper::{parse_ship_detail, SHIPS_ROOT};
use opdb_scraper::types::{Error, NamedUrl, UrlTyped};
use std::collections::HashMap;

fn category_page(links: &[&str]) -> String {
    let mut html = String::from("<div><ul>");
    for link in links {
        html.push_str(&format!(
            "<li class=\"category-page__member\"><a href=\"{}\" class=\"category-page__member-link\">{}</a></li>",
            link, link
        ));
    }
    html.push_str("</ul></div>");
    html
}

fn detail_page(title: &str, picture: &str, stats: &[(&str, &str)], paragraph: &str) -> String {
    let mut html = format!(
        "<html><body><main><span class=\"mw-page-title-main\">{}</span><div id=\"mw-content-text\"><p></p><aside class=\"portable-infobox\"><figure class=\"pi-image\"><a href=\"{}\" class=\"image\"></a></figure><section>",
        title, picture
    );
    for (source, value) in stats {
        html.push_str(&format!(
            "<div class=\"pi-item pi-data\" data-source=\"{}\"><h3 class=\"pi-data-label\">label</h3><div class=\"pi-data-value\">{}</div></div>",
            source, value
        ));
    }
    html.push_str(&format!("</section></aside><p></p><p>{}</p></div></main></body></html>", paragraph));
    html
}

fn strings(v: &[&str]) -> Vec<String> {
    v.iter().map(|s| s.to_string()).collect()
}

fn pirate_store() -> HashMap<String, String> {
    let mut pages = HashMap::new();
    pages.insert(
        "/wiki/Category:Pirate_Crews_by_Sea".to_string(),
        category_page(&["/wiki/Category:Grand_Line_Pirate_Crews"]),
    );
    pages.insert(
        "/wiki/Category:Grand_Line_Pirate_Crews".to_string(),
        category_page(&[
            "/wiki/Category:Non-Canon_Grand_Line_Pirate_Crews",
            "/wiki/Fallen_Monk_Pirates",
            "/wiki/Category:New_World_Pirate_Crews",
        ]),
    );
    pages.insert(
        "/wiki/Category:New_World_Pirate_Crews".to_string(),
        category_page(&["/wiki/New_Donquixote_Family", "/wiki/Rocks_Pirates"]),
    );
    pages.insert(
        "/wiki/Fallen_Monk_Pirates".to_string(),
        detail_page(
            "Fallen Monk Pirates",
            "/image-path-212",
            &[
                ("rname", "<i>Hakaisō Kaizokudan</i>"),
                ("captain", "<a href=\"/wiki/Urouge\" title=\"Urouge\"> Urouge </a>"),
                ("ship", "<a href=\"/wiki/Hanjomaru\" title=\"Hanjomaru\">Hanjomaru</a>"),
            ],
            "The Fallen Monk Pirates are an infamous\n and notable rookie pirate crew<sup id=\"cite\">[1]</sup>",
        ),
    );
    pages.insert(
        "/wiki/Rocks_Pirates".to_string(),
        detail_page(
            "Rocks Pirates",
            "/image-path-213?cb=99",
            &[
                ("rname", "<i>Rokkusu Kaizokudan</i>"),
                ("captain", "<a href=\"/wiki/Rocks_D._Xebec\">Rocks D. Xebec</a>"),
                ("extra1", "<a href=\"/wiki/Other\">Other</a><a>nowhere</a>"),
                (
                    "ship",
                    "<a href=\"/s0\">s0</a><a href=\"/s1\">s1</a><a href=\"/s2\">s2</a><a href=\"/s3\">s3</a><a href=\"/s4\">s4</a><a href=\"/s5\">s5</a><a href=\"/s6\">s6</a>",
                ),
                ("rname", "<i>Last name</i>"),
            ],
            "The Rocks Pirates were a legendary and powerful pirate crew.",
        ),
    );
    pages
}

fn fetch(pages: &HashMap<String, String>, path: &str) -> Result<String, Error> {
    pages.get(path).cloned().ok_or(Error::RequestError(path.to_string()))
}

fn scrape_pirates(pages: &HashMap<String, String>) -> Result<Vec<Pirate>, Error> {
    let seas = keep_canon(member_links(&fetch(pages, CREWS_BY_SEA)?)?);
    let mut results = vec![];
    for sea in seas {
        let (mut paths, nested) = plan_sea(member_links(&fetch(pages, &sea)?)?);
        if let Some(nested) = nested {
            add_nested_members(&mut paths, member_links(&fetch(pages, &nested)?)?);
        }
        for path in paths {
            let record = fetch(pages, &path).and_then(|html| parse_pirate_detail(html, path.clone()));
            results.push((path, record));
        }
    }
    Ok(finish_records(results))
}

#[test]
fn pirates_scraper_test_get() {
    let pirates = scrape_pirates(&pirate_store()).unwrap();
    assert_eq!(pirates.len(), 2);
    assert_eq!(pirates[0].get_path(), "/wiki/Fallen_Monk_Pirates");
    assert_eq!(pirates[0].name, "Hakaisō Kaizokudan");
    assert_eq!(pirates[0].en_name, "Fallen Monk Pirates");
    assert_eq!(
        pirates[0].description,
        "The Fallen Monk Pirates are an infamous and notable rookie pirate crew"
    );
    assert_eq!(pirates[0].pic_url, "/image-path-212");
    assert_eq!(pirates[0].captain, vec![NamedUrl::new("Urouge".to_string(), "/wiki/Urouge".to_string())]);
    assert_eq!(pirates[0].ship, vec![NamedUrl::new("Hanjomaru".to_string(), "/wiki/Hanjomaru".to_string())]);
    assert!(!pirates[0].non_cannon);
    assert_eq!(pirates[1].get_path(), "/wiki/Rocks_Pirates");
    assert_eq!(pirates[1].name, "Last name");
    assert_eq!(pirates[1].pic_url, "/image-path-213");
    assert_eq!(
        pirates[1].captain,
        vec![
            NamedUrl::new("Rocks D. Xebec".to_string(), "/wiki/Rocks_D._Xebec".to_string()),
            NamedUrl::new("Other".to_string(), "/wiki/Other".to_string()),
        ]
    );
    assert_eq!(
        pirates[1].ship,
        vec![
            NamedUrl::new("s0".to_string(), "/s0".to_string()),
            NamedUrl::new("s5".to_string(), "/s5".to_string()),
        ]
    );
}

#[test]
fn a_primary_page_that_cannot_be_read_is_dropped() {
    let mut pages = pirate_store();
    pages.insert(
        "/wiki/Category:New_World_Pirate_Crews".to_string(),
        category_page(&["/wiki/Rocks_Pirates", "/wiki/Broken_Pirates", "/wiki/Missing_Pirates"]),
    );
    pages.insert("/wiki/Broken_Pirates".to_string(), "<html><body><p>nothing here</p></body></html>".to_string());
    let pirates = scrape_pirates(&pages).unwrap();
    let paths: Vec<String> = pirates.iter().map(|p| p.get_path()).collect();
    assert_eq!(paths, strings(&["/wiki/Fallen_Monk_Pirates", "/wiki/Rocks_Pirates"]));
    match parse_pirate_detail(pages["/wiki/Broken_Pirates"].clone(), "/x".to_string()) {
        Err(Error::InvalidStructure(msg)) => assert_eq!(msg, "invalid first paragraph element"),
        other => panic!("unexpected result: {:?}", other),
    }
}

#[test]
fn a_page_without_title_is_a_structure_error() {
    let page = detail_page("T", "/p", &[], "text").replace("mw-page-title-main", "other");
    match parse_pirate_detail(page.clone(), "/x".to_string()) {
        Err(Error::InvalidStructure(msg)) => assert_eq!(msg, "invalid title page element"),
        other => panic!("unexpected result: {:?}", other),
    }
    match parse_ship_detail(page, "/x".to_string()) {
        Err(Error::InvalidStructure(msg)) => assert_eq!(msg, "invalid title page element"),
        other => panic!("unexpected result: {:?}", other),
    }
}

fn ship_store() -> HashMap<String, String> {
    let mut pages = HashMap::new();
    pages.insert(
        "/wiki/Category:Ships".to_string(),
        category_page(&["/wiki/Category:someone", "/wiki/Hanjomaru"]),
    );
    pages.insert("/wiki/Category:someone".to_string(), category_page(&["/wiki/Northheim"]));
    pages.insert(
        "/wiki/Hanjomaru".to_string(),
        detail_page(
            "Hanjomaru",
            "/image-path-213",
            &[
                ("rname", "<i>Hanjōmaru</i>"),
                ("affiliation", "<a href=\"/wiki/Fallen_Monk_Pirates\">Fallen Monk Pirates</a><a href=\"/wiki/Second\">Second</a>"),
                ("status", "Active"),
            ],
            "Hanjomaru is the Fallen Monk Pirates ship.",
        ),
    );
    pages.insert(
        "/wiki/Northheim".to_string(),
        detail_page(
            "Northheim",
            "/image-path-214",
            &[("rname", "<i>Northheim</i>"), ("status", "Unknown")],
            "The Northheim[2] was the ship Mont Blanc Noland used to explore the Grand Line.",
        ),
    );
    pages
}

fn scrape_ships(pages: &HashMap<String, String>) -> Result<Vec<Ship>, Error> {
    let mut crawl = Crawl::new(SHIPS_ROOT);
    while let Some(page) = crawl.next_page() {
        match fetch(pages, &page) {
            Ok(html) => crawl.page_fetched(member_links(&html)?),
            Err(e) => crawl.page_failed(e),
        }
    }
    let paths = crawl.finish(true)?;
    let mut results = vec![];
    for path in paths {
        assert!(may_start(results.len() % SHIP_FETCH_LIMIT, SHIP_FETCH_LIMIT));
        let record = fetch(pages, &path).and_then(|html| parse_ship_detail(html, path.clone()));
        results.push((path, record));
    }
    Ok(finish_records(results))
}

#[test]
fn ships_scraper_test_get() {
    let ships = scrape_ships(&ship_store()).unwrap();
    assert_eq!(ships.len(), 2);
    assert_eq!(ships[0].get_path(), "/wiki/Hanjomaru");
    assert_eq!(ships[0].name, "Hanjōmaru");
    assert_eq!(ships[0].en_name, "Hanjomaru");
    assert_eq!(ships[0].status, "Active");
    assert_eq!(
        ships[0].affiliation,
        NamedUrl::new("Fallen Monk Pirates".to_string(), "/wiki/Fallen_Monk_Pirates".to_string())
    );
    assert_eq!(ships[0].description, "Hanjomaru is the Fallen Monk Pirates ship.");
    assert_eq!(ships[0].pic_url, "/image-path-213");
    assert_eq!(ships[1].get_path(), "/wiki/Northheim");
    assert_eq!(ships[1].status, "Unknown");
    assert_eq!(ships[1].affiliation, NamedUrl::default());
}

#[test]
fn a_strict_crawl_for_ships_fails_on_a_missing_category() {
    let mut pages = ship_store();
    pages.remove("/wiki/Category:someone");
    assert!(matches!(scrape_ships(&pages), Err(Error::RequestError(_))));
}

#[test]
fn of_three_records_one_failing_two_are_left() {
    let pages = ship_store();
    let results = vec![
        ("/wiki/Northheim".to_string(), parse_ship_detail(pages["/wiki/Northheim"].clone(), "/wiki/Northheim".to_string())),
        ("/wiki/Gone".to_string(), Err(Error::RequestError("/wiki/Gone".to_string()))),
        ("/wiki/Hanjomaru".to_string(), parse_ship_detail(pages["/wiki/Hanjomaru"].clone(), "/wiki/Hanjomaru".to_string())),
    ];
    let ships = finish_records(results);
    assert_eq!(ships.len(), 2);
    assert_eq!(ships[0].get_path(), "/wiki/Hanjomaru");
    assert_eq!(ships[1].get_path(), "/wiki/Northheim");
}

#[test]
fn the_order_of_completion_does_not_show() {
    let ship = |url: &str| Ship { url: url.to_string(), name: url.to_uppercase(), ..Ship::default() };
    let first = finish_records(vec![
        ("/c".to_string(), Ok(ship("/c"))),
        ("/a".to_string(), Ok(ship("/a"))),
        ("/x".to_string(), Err(Error::InvalidStructure("x".to_string()))),
        ("/b".to_string(), Ok(ship("/b"))),
    ]);
    let second = finish_records(vec![
        ("/b".to_string(), Ok(ship("/b"))),
        ("/x".to_string(), Err(Error::InvalidStructure("x".to_string()))),
        ("/c".to_string(), Ok(ship("/c"))),
        ("/a".to_string(), Ok(ship("/a"))),
    ]);
    let names = |v: &Vec<Ship>| v.iter().map(|s| s.name.clone()).collect::<Vec<_>>();
    assert_eq!(names(&first), strings(&["/A", "/B", "/C"]));
    assert_eq!(names(&first), names(&second));
}

#[test]
fn sorting_is_by_path_and_keeps_equal_paths_in_order() {
    let ship = |url: &str, name: &str| Ship { url: url.to_string(), name: name.to_string(), ..Ship::default() };
    let sorted = sort_by_path(vec![
        ship("/b", "1"),
        ship("/a/x", "2"),
        ship("/b", "3"),
        ship("/a", "4"),
        ship("", "5"),
        ship("/B", "6"),
    ]);
    let names: Vec<&str> = sorted.iter().map(|s| s.name.as_str()).collect();
    assert_eq!(names, vec!["5", "6", "4", "2", "1", "3"]);
    assert_eq!(sort_by_path(Vec::<Ship>::new()).len(), 0);
}

#[test]
fn successes_keep_their_order() {
    let results: Vec<(String, Result<u8, Error>)> = vec![
        ("a".to_string(), Ok(1)),
        ("b".to_string(), Err(Error::RequestError("b".to_string()))),
        ("c".to_string(), Ok(3)),
    ];
    assert_eq!(collect_successes(results), vec![1, 3]);
}

#[test]
fn crews_are_planned_sea_by_sea() {
    let (paths, nested) = plan_sea(strings(&[
        "/wiki/Category:Non-Canon_X",
        "/wiki/A",
        "/wiki/Category:Nested",
        "/wiki/B",
        "/wiki/Category:Second",
        "/wiki/C",
    ]));
    assert_eq!(nested, Some("/wiki/Category:Nested".to_string()));
    assert_eq!(paths, strings(&["/wiki/A", "/wiki/C", "/wiki/B", "/wiki/Category:Second"]));
    let mut paths = paths;
    add_nested_members(
        &mut paths,
        strings(&["/wiki/New_Donquixote_Family", "/wiki/D", "/wiki/Category:Non-Canon_Y"]),
    );
    assert_eq!(paths, strings(&["/wiki/A", "/wiki/C", "/wiki/B", "/wiki/Category:Second", "/wiki/D"]));
    let (plain, none) = plan_sea(strings(&["/wiki/A"]));
    assert_eq!(plain, strings(&["/wiki/A"]));
    assert_eq!(none, None);
    assert_eq!(keep_crews(strings(&["/wiki/New_Donquixote_Family"])), Vec::<String>::new());
    assert_eq!(keep_canon(strings(&["/wiki/New_Donquixote_Family"])), strings(&["/wiki/New_Donquixote_Family"]));
    let mut last = strings(&["/wiki/Category:Only"]);
    assert_eq!(take_nested_category(&mut last), Some("/wiki/Category:Only".to_string()));
    assert!(last.is_empty());
}

#[test]
fn the_fan_out_limit_bounds_the_tasks_in_flight() {
    assert_eq!(SHIP_FETCH_LIMIT, 20);
    assert!(may_start(19, 20));
    assert!(!may_start(20, 20));
    assert!(may_start(1000, 0));
}

#[test]
fn a_bounded_run_keeps_to_its_limit() {
    let paths = strings(&["/a", "/b", "/c", "/d", "/e"]);
    let mut run: FanOut<Ship> = FanOut::new(paths.clone(), 2);
    let ship = |url: &str| Ship { url: url.to_string(), ..Ship::default() };
    let mut started = vec![];
    let mut most = 0;
    let mut under_way: Vec<String> = vec![];
    while !run.is_done() {
        while let Some(path) = run.start_next() {
            started.push(path.clone());
            under_way.push(path);
        }
        most = most.max(run.in_flight);
        assert_eq!(run.in_flight, under_way.len());
        let ended = under_way.pop().unwrap();
        let result = if ended == "/c" {
            Err(Error::RequestError(ended.clone()))
        } else {
            Ok(ship(&ended))
        };
        run.task_done(ended, result);
    }
    assert_eq!(started, paths);
    assert_eq!(most, 2);
    assert_eq!(run.results.len(), 5);
    assert_eq!(run.start_next(), None);
    let ships = run.finish();
    let urls: Vec<String> = ships.iter().map(|s| s.get_path()).collect();
    assert_eq!(urls, strings(&["/a", "/b", "/d", "/e"]));
}

#[test]
fn an_unbounded_run_starts_every_task_at_once() {
    let mut run: FanOut<Ship> = FanOut::new(strings(&["/a", "/b", "/c"]), 0);
    assert_eq!(run.start_next(), Some("/a".to_string()));
    assert_eq!(run.start_next(), Some("/b".to_string()));
    assert_eq!(run.start_next(), Some("/c".to_string()));
    assert_eq!(run.start_next(), None);
    assert_eq!(run.in_flight, 3);
    assert!(!run.is_done());
    let empty: FanOut<Ship> = FanOut::new(vec![], 3);
    assert!(empty.is_done());
    assert_eq!(empty.finish().len(), 0);
}
