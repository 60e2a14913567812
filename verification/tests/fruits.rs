use opdb_scraper::df::models::DevilFruit;
use opdb_scraper::df::parser::{
    find_groups, get_parser, name_from_matches, CanonParser, CanonZoanParser, DfTypeParser, Utils,
    EN_NAME_PATTERN, LIST_DESCRIPTION_PATTERN, ZOAN_DESCRIPTION_PATTERN,
};
use opdb_scraper::df::scraper::{
    listed_classes, parse_dftype_info, parse_fruit_page, parse_picture, DfScrapable, DfScraper,
    FruitTable,
};
use opdb_scraper::fetcher::{CannedPages, HtmlFetcher};
use opdb_scraper::df::types::{DfSubType, DfType};
use opdb_scraper::dom::Document;
use opdb_scraper::types::Error;
use std::collections::HashMap;

fn read_page(html: &str) -> Document {
    Document::parse(html).unwrap()
}

const TYPE_PAGE: &str = r#"<html><body>
    <h4><span id="Paramecia">Paramecia</span></h4>
    <p>Paramecia Text</p>
    <h4><span id="Zoan">Zoan</span></h4>
    <p>Zoan Text</p>
    <h4><span id="Logia">Logia</span></h4>
    <p>Logia Text</p>
    <table class="wikitable">
        <tbody>
        <tr><th></th><th>Canon</th><th>Non-Canon</th><th>Total</th></tr>
        <tr><td>Paramecia</td><td>94 </td><td>48</td><td>142</td></tr>
        <tr><td>Zoan</td><td>55</td><td>7 </td><td> 62</td></tr>
        <tr><td>Logia</td><td>13</td><td>3</td><td>16  </td></tr>
        <tr><td>Undetermined</td><td>3</td><td>2</td><td>5</td></tr>
        <tr><td>Last</td><td></td><td></td><td></td></tr>
        </tbody></table>
</body></html>"#;

const LOGIA_PAGE: &str = r#"<html><body>
    <h4><span id="Logia-Types">Logia</span></h4>
    <dl></dl>
    <h3>Some Text</h3>
    <dl></dl>
    <ul>
        <li><a href="/dfpath_logia" title="Some Logia Df">Some Logia Devil Fruit</a> (<i>English versions: Some En Logia Df</i>): Some description. Eaten by <a href="/character">Df User</a>.</li>
    </ul>
    </body></html>"#;

const PARAMECIA_PAGE: &str = r#"<html><body>
    <h4><span id="Paramecia-Type_Fruits">Paramecia</span></h4>
    <dl></dl>
    <h3>Some Text</h3>
    <dl></dl>
    <ul>
        <li><a href="/dfpath_paramecia" title="Some Paramecia Df">Some Paramecia Devil Fruit</a> (<i>English versions: Some En Paramecia Df</i>): Some description. Eaten by <a href="/character">Df User</a>.</li>
    </ul>
    </body></html>"#;

const ZOAN_PAGE: &str = r#"<html><body>
    <h4><span id="Ancient_Zoan">Ancient Zoan</span></h4>
    <dl></dl>
    <p>wow</p>
    <ul>
        <li><a href="/dfpath-ancient-zoan" title="Some Ancient Zoan">Some ancient zoan</a>: Eaten by <a href="/characterx" title="X">X</a>.</li>
    </ul>
    <h4><span id="Mythical_Zoan">Mythical Zoan</span></h4>
    <dl></dl>
    <p>wow</p>
    <ul>
        <li><a href="/dfpath-mythical-zoan" title="Some Mythical Zoan">Some mythical zoan</a>: Eaten by <a href="/characterx" title="X">X</a>.</li>
    </ul>
    <h4><span id="List_of_Zoan-Type_Fruits">Zoan</span></h4>
    <h3>Some Text</h3>
    <dl></dl>
    <ul>
        <li><a href="/dfpath-zoan" title="Some Zoan Df">Some Zoan Devil Fruit</a> (<i>English versions: Some En Zoan Df</i>): Some description. Eaten by <a href="/character">Df User</a>.</li>
        <li><a href="/dfpath-ancient-zoan" title="Some Ancient Zoan">Some ancient zoan</a> (<i>English versions: Some En Ancient Zoan Df</i>): Some description. Eaten by <a href="/characterx">X</a>.</li>
    </ul>
    </body></html>"#;

const PICTURE_PAGE: &str = r#"<html><body>
                <aside><figure class="pi-image piapia"><a href="/picurl" class="image"><img src="/picurlsrc"/></a></figure></aside>
                </body></html>"#;

const INFOBOX_PICTURE_PAGE: &str = r#"<html><body>
    <aside class="portable-infobox"><figure class="pi-image piapia"><a href="/picurl?cb=2020" class="image"><img src="/picurlsrc"/></a></figure></aside>
    </body></html>"#;

fn page_of(df_type: DfType) -> &'static str {
    match df_type {
        DfType::Logia => LOGIA_PAGE,
        DfType::Paramecia => PARAMECIA_PAGE,
        _ => ZOAN_PAGE,
    }
}

fn df_list(pictures: &HashMap<String, String>) -> Vec<DevilFruit> {
    let mut table = FruitTable::new();
    let mut results = vec![];
    for df_type in listed_classes() {
        let fruits = parse_fruit_page(df_type, page_of(df_type)).unwrap();
        for fruit in fruits.iter() {
            let path = fruit.df_url.clone();
            let picture = match pictures.get(&path) {
                Some(html) => parse_picture(html),
                None => Err(Error::RequestError(path.clone())),
            };
            results.push((path, picture));
        }
        table.insert_all(fruits);
    }
    table.apply_pictures(results);
    table.into_sorted()
}

fn scraper(pages: &[(&str, &str)]) -> DfScraper<CannedPages> {
    let pages = pages.iter().map(|(path, html)| (path.to_string(), Ok(html.to_string()))).collect();
    DfScraper::new(HtmlFetcher::new(CannedPages::new(pages), ""))
}

#[test]
fn get_type_info() {
    let mut scrape = scraper(&[("/wiki/Devil_Fruit", TYPE_PAGE)]);
    let result = scrape.get_dftype_info();
    assert!(result.is_ok());
    assert_eq!(result.unwrap().len(), 4);
}

#[test]
fn type_info_is_read_row_by_row() {
    let result = parse_dftype_info(TYPE_PAGE);
    assert!(result.is_ok());
    let infos = result.unwrap();
    assert_eq!(infos.len(), 4);
    assert_eq!(infos[0].df_type, DfType::Paramecia);
    assert_eq!(infos[0].cannon_count, 94);
    assert_eq!(infos[0].non_cannon_count, 48);
    assert_eq!(infos[0].description, "Paramecia Text");
    assert_eq!(infos[1].df_type, DfType::Zoan);
    assert_eq!(infos[1].description, "Zoan Text");
    assert_eq!(infos[2].to_text(), "(df_type: Logia, cannon: 13, non-cannon: 3, description: Logia Text)");
    assert_eq!(infos[3].df_type, DfType::Undetermined);
    assert_eq!(infos[3].description, "");
}

#[test]
fn type_info_reports_what_it_cannot_read() {
    let unknown = TYPE_PAGE.replace("<td>Zoan</td>", "<td>Zoanish</td>");
    match parse_dftype_info(&unknown) {
        Err(Error::InvalidStructure(msg)) => assert_eq!(msg, "Unknown DfType: Zoanish"),
        other => panic!("unexpected result: {:?}", other),
    }
    let no_number = TYPE_PAGE.replace("<td>55</td>", "<td>many</td>");
    match parse_dftype_info(&no_number) {
        Err(Error::InvalidStructure(msg)) => assert_eq!(msg, "Invalid count: many"),
        other => panic!("unexpected result: {:?}", other),
    }
    let empty_cell = TYPE_PAGE.replace("<td>55</td>", "<td></td>");
    match parse_dftype_info(&empty_cell) {
        Err(Error::InvalidStructure(msg)) => assert_eq!(msg, "Missing cell text"),
        other => panic!("unexpected result: {:?}", other),
    }
    let few_cells = TYPE_PAGE.replace("<td>55</td><td>7 </td><td> 62</td>", "<td>55</td>");
    match parse_dftype_info(&few_cells) {
        Err(Error::InvalidStructure(msg)) => assert_eq!(msg, "Expected at least 3 cells, found 2"),
        other => panic!("unexpected result: {:?}", other),
    }
    let no_anchor = TYPE_PAGE.replace("id=\"Zoan\"", "id=\"Zoa\"");
    match parse_dftype_info(&no_anchor) {
        Err(Error::InvalidStructure(msg)) => assert_eq!(msg, "invalid sibling node"),
        other => panic!("unexpected result: {:?}", other),
    }
    let no_text = "<html><body><h4><span id=\"Paramecia\">P</span></h4></body></html>";
    match parse_dftype_info(no_text) {
        Err(Error::InvalidStructure(msg)) => assert_eq!(msg, "invalid element"),
        other => panic!("unexpected result: {:?}", other),
    }
}

#[test]
fn get_df_list() {
    let mut scrape = scraper(&[
        ("/wiki/Logia", LOGIA_PAGE),
        ("/wiki/Paramecia", PARAMECIA_PAGE),
        ("/wiki/Zoan", ZOAN_PAGE),
        ("/dfpath-zoan", PICTURE_PAGE),
    ]);
    let df_list = scrape.get_df_list().unwrap();
    assert_eq!(df_list.len(), 4);
}

#[test]
fn the_fruits_are_listed_by_path_with_their_pictures() {
    let pictures: HashMap<String, String> =
        [("/dfpath-zoan".to_string(), INFOBOX_PICTURE_PAGE.to_string())].into_iter().collect();
    let df_list = df_list(&pictures);
    assert_eq!(df_list.len(), 4);
    let paths: Vec<&str> = df_list.iter().map(|f| f.df_url.as_str()).collect();
    assert_eq!(paths, vec!["/dfpath-ancient-zoan", "/dfpath-zoan", "/dfpath_logia", "/dfpath_paramecia"]);
    assert_eq!(df_list[0].df_sub_type, Some(DfSubType::AncientZoan));
    assert_eq!(df_list[0].df_type, DfType::Zoan);
    assert_eq!(df_list[0].pic_url, "");
    assert_eq!(df_list[1].df_sub_type, None);
    assert_eq!(df_list[1].pic_url, "/picurl");
    assert_eq!(df_list[1].name, "Some Zoan Devil Fruit");
    assert_eq!(df_list[2].df_type, DfType::Logia);
    assert_eq!(df_list[2].name, "Some Logia Devil Fruit");
    assert_eq!(df_list[3].df_type, DfType::Paramecia);
}

#[test]
fn a_failed_picture_leaves_the_fruit_with_an_empty_picture() {
    let df_list = df_list(&HashMap::new());
    assert_eq!(df_list.len(), 4);
    assert!(df_list.iter().all(|f| f.pic_url.is_empty()));
}

#[test]
fn running_twice_gives_the_same_list() {
    let pictures: HashMap<String, String> =
        [("/dfpath-zoan".to_string(), INFOBOX_PICTURE_PAGE.to_string())].into_iter().collect();
    let first: Vec<String> = df_list(&pictures).iter().map(|f| f.to_text()).collect();
    let second: Vec<String> = df_list(&pictures).iter().map(|f| f.to_text()).collect();
    assert_eq!(first, second);
}

#[test]
fn the_table_keeps_one_fruit_for_a_path() {
    let mut table = FruitTable::new();
    let fruit = |name: &str, url: &str| DevilFruit {
        df_type: DfType::Logia,
        df_sub_type: None,
        name: name.to_string(),
        en_name: String::new(),
        description: String::new(),
        pic_url: String::new(),
        df_url: url.to_string(),
    };
    table.insert(fruit("first", "/b"));
    table.insert(fruit("other", "/a"));
    table.insert(fruit("second", "/b"));
    table.set_picture("/b", "pic".to_string());
    table.set_picture("/none", "lost".to_string());
    let sorted = table.into_sorted();
    assert_eq!(sorted.len(), 2);
    assert_eq!(sorted[0].name, "other");
    assert_eq!(sorted[0].pic_url, "");
    assert_eq!(sorted[1].name, "second");
    assert_eq!(sorted[1].pic_url, "pic");
}

#[test]
fn items_after_the_stop_marker_are_left_out() {
    let page = r#"<html><body>
    <h4><span id="Ancient_Zoan">Ancient</span></h4><ul></ul>
    <h4><span id="Mythical_Zoan">Mythical</span></h4><ul><li><a href="/two">Two</a></li></ul>
    <h4><span id="List_of_Zoan-Type_Fruits">Zoan</span></h4>
    <h3><span id="Canon">Canon</span></h3>
    <ul><li><a href="/one">Ichi</a> (<i>English version: One</i>) - the first. <b>Bold</b>
tail</li></ul>
    <p>between</p>
    <ul><li><a href="/two">Ni</a></li></ul>
    <h3><span id="Non-Canon">Non-Canon</span></h3>
    <ul><li><a href="/three">San</a></li></ul>
    </body></html>"#;
    let doc = read_page(page);
    let fruits = CanonZoanParser.parse(&doc).unwrap();
    assert_eq!(fruits.len(), 2);
    assert_eq!(fruits[0].df_url, "/one");
    assert_eq!(fruits[0].name, "Ichi");
    assert_eq!(fruits[0].en_name, "One");
    assert_eq!(fruits[0].description, "the first. Boldtail");
    assert_eq!(fruits[0].df_sub_type, None);
    assert_eq!(fruits[1].df_url, "/two");
    assert_eq!(fruits[1].name, "Ni");
    assert_eq!(fruits[1].en_name, "");
    assert_eq!(fruits[1].description, "");
    assert_eq!(fruits[1].df_sub_type, Some(DfSubType::MythicalZoan));
}

#[test]
fn a_list_entry_without_link_is_a_structure_error() {
    let page = LOGIA_PAGE.replace("<a href=\"/dfpath_logia\" title=\"Some Logia Df\">", "<a>");
    match parse_fruit_page(DfType::Logia, &page) {
        Err(Error::InvalidStructure(msg)) => assert_eq!(msg, "Missing href attribute"),
        other => panic!("unexpected result: {:?}", other),
    }
    let no_anchor = "<html><body><ul><li><a href=\"/x\">x</a></li></ul></body></html>";
    match parse_fruit_page(DfType::Paramecia, no_anchor) {
        Err(Error::InvalidStructure(msg)) => assert_eq!(msg, "invalid sibling node"),
        other => panic!("unexpected result: {:?}", other),
    }
    let text_after_dl = "<html><body><h4><span id=\"Logia-Types\">L</span></h4><dl></dl><p>x</p>text</body></html>";
    match parse_fruit_page(DfType::Logia, text_after_dl) {
        Err(Error::InvalidStructure(msg)) => assert_eq!(msg, "invalid element node"),
        other => panic!("unexpected result: {:?}", other),
    }
}

#[test]
fn the_parser_is_chosen_by_class() {
    assert_eq!(get_parser(&DfType::Zoan, true), CanonParser::Zoan);
    assert_eq!(get_parser(&DfType::Logia, true), CanonParser::Logia);
    assert_eq!(get_parser(&DfType::Paramecia, true), CanonParser::Paramecia);
    let doc = read_page(PARAMECIA_PAGE);
    let fruits = get_parser(&DfType::Paramecia, true).parse(&doc).unwrap();
    assert_eq!(fruits.len(), 1);
    assert_eq!(fruits[0].df_type, DfType::Paramecia);
    assert_eq!(fruits[0].df_url, "/dfpath_paramecia");
    assert_eq!(fruits[0].description, "Some description. Eaten by Df User.");
}

#[test]
fn names_are_split_by_the_two_patterns() {
    let runs: Vec<String> = ["Gomu Gomu no Mi", " (", "English version: Gum-Gum Fruit", "): Makes the eater\n", "rubber", ".\n"]
        .iter()
        .map(|s| s.to_string())
        .collect();
    let en = find_groups(EN_NAME_PATTERN, &runs);
    let desc = find_groups(LIST_DESCRIPTION_PATTERN, &runs);
    assert_eq!(en[2], Some("Gum-Gum Fruit".to_string()));
    assert_eq!(en[0], None);
    assert_eq!(desc[3], Some("Makes the eater".to_string()));
    let names = name_from_matches(&runs, &en, &desc);
    assert_eq!(names.name, "Gomu Gomu no Mi");
    assert_eq!(names.en_name, "Gum-Gum Fruit");
    assert_eq!(names.description, "Makes the eaterrubber.");
    let zoan = find_groups(ZOAN_DESCRIPTION_PATTERN, &vec![") - a bird".to_string(), "): no".to_string()]);
    assert_eq!(zoan, vec![Some("a bird".to_string()), None]);
}

#[test]
fn names_follow_the_matches_they_are_given() {
    let runs: Vec<String> = ["n", "a", "b", "c\n", "d"].iter().map(|s| s.to_string()).collect();
    let en = vec![Some("ignored".to_string()), Some("first".to_string()), None, Some("late".to_string()), None];
    let desc = vec![None, Some("skipped".to_string()), Some("desc".to_string()), None, None];
    let names = name_from_matches(&runs, &en, &desc);
    assert_eq!(names.name, "n");
    assert_eq!(names.en_name, "first");
    assert_eq!(names.description, "desccd");
    let none = name_from_matches(&vec![], &vec![], &vec![]);
    assert_eq!(none.name, "");
    assert_eq!(none.en_name, "");
    assert_eq!(none.description, "");
}

#[test]
fn kinds_are_read_by_path() {
    let doc = read_page(ZOAN_PAGE);
    let kinds = Utils::parse_sub_type(&doc).unwrap();
    assert_eq!(
        kinds,
        vec![
            ("/dfpath-ancient-zoan".to_string(), DfSubType::AncientZoan),
            ("/dfpath-mythical-zoan".to_string(), DfSubType::MythicalZoan),
        ]
    );
    let missing = read_page(LOGIA_PAGE);
    assert!(matches!(Utils::parse_sub_type(&missing), Err(Error::InvalidStructure(_))));
}
