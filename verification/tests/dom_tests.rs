use opdb_scraper::dom::{Attribute, Document, Node, NodeKind};
use opdb_scraper::types::{Error, NamedUrl};
use opdb_scraper::utils::{
    anchor_section, cleanup_html, extract_all_href, extract_href, extract_page_href, first_href,
    get_first_parents_sibling_text, hrefs_of, parse_infobox_single_data_named_urls,
    parse_infobox_single_data_text, parse_is_non_cannon, parse_main_page_first_paragraph,
    parse_main_page_title, parse_picture_url, MEMBER_LINK_SELECTOR,
};

fn read_page(html: &str) -> Document {
    Document::parse(html).unwrap()
}

#[test]
fn document_lists_nodes_in_document_order_with_depths() {
    let doc = read_page("<html><head></head><body><p id=\"x\">a<b>c</b></p></body></html>");
    let names: Vec<(usize, String)> = doc
        .nodes
        .iter()
        .filter(|n| n.kind == NodeKind::Element)
        .map(|n| (n.depth, n.name.clone()))
        .collect();
    assert_eq!(
        names,
        vec![
            (1, "html".to_string()),
            (2, "head".to_string()),
            (2, "body".to_string()),
            (3, "p".to_string()),
            (4, "b".to_string()),
        ]
    );
    assert_eq!(doc.nodes[0].depth, 0);
    assert_eq!(doc.nodes[0].kind, NodeKind::Other);
}

#[test]
fn marks_follow_the_selector() {
    let doc = read_page("<ul><li class=\"a\"><a href=\"/x\">x</a></li><li><a href=\"/y\">y</a></li></ul>");
    let marks = doc.marks("li.a a").unwrap();
    let at = doc.select_all(&marks);
    assert_eq!(at.len(), 1);
    assert_eq!(doc.attr(at[0], "href"), Some("/x".to_string()));
    assert!(doc.marks("li..").is_err());
}

#[test]
fn member_links_are_read_in_order() {
    let doc = read_page(
        r##"<div><ul>
        <li class="category-page__member"><a href="/wiki/Category:A" class="category-page__member-link">A</a></li>
        <li class="category-page__member"><a href="/wiki/B" class="category-page__member-link">B</a></li>
        <li class="category-page__member"><a class="category-page__member-link">no href</a></li>
        <li><a href="/wiki/C" class="category-page__member-link">C</a></li>
        </ul></div>"##,
    );
    assert_eq!(
        extract_page_href(&doc, MEMBER_LINK_SELECTOR).unwrap(),
        vec!["/wiki/Category:A".to_string(), "/wiki/B".to_string()]
    );
}

#[test]
fn first_sibling_text_follows_the_anchor() {
    let doc = read_page(
        r#"<html><body><h4><span id="Zoan">Zoan</span></h4> text <p>Zoan <b>Text</b></p><p>more</p></body></html>"#,
    );
    assert_eq!(get_first_parents_sibling_text(&doc, "#Zoan").unwrap(), "Zoan Text");
    assert!(get_first_parents_sibling_text(&doc, "#Logia").is_err());
}

#[test]
fn picture_urls_lose_their_version() {
    let doc = read_page(
        r#"<aside class="portable-infobox"><figure class="pi-image"><a href="/pic.png?cb=123" class="image"></a></figure></aside>"#,
    );
    assert_eq!(parse_picture_url(&doc).unwrap(), vec!["/pic.png".to_string()]);
}

#[test]
fn cleanup_removes_footnote_marks() {
    assert_eq!(
        cleanup_html("<p>The ship<sup id=\"x\">[2]</sup> sails<sup>[3]</sup>.</p>".to_string()),
        "<p>The ship sails.</p>"
    );
}

fn handmade() -> Document {
    // root
    //   a
    //     "t1"
    //     b
    //       "t2"
    //     c
    //   d
    //     "t3"
    let el = |depth: usize, name: &str| Node::element(depth, name, vec![]);
    Document {
        html: String::new(),
        nodes: vec![
            Node::other(0),
            Node::element(1, "a", vec![Attribute::new("", "href", "/a"), Attribute::new("x", "id", "ns"), Attribute::new("", "id", "plain")]),
            Node::text(2, "t1"),
            el(2, "b"),
            Node::text(3, "t2"),
            el(2, "c"),
            Node::element(1, "d", vec![Attribute::new("x", "href", "/ns")]),
            Node::text(2, "t3"),
        ],
    }
}

#[test]
fn a_document_is_walked_by_depths() {
    let doc = handmade();
    assert_eq!(doc.subtree_end(0), 8);
    assert_eq!(doc.subtree_end(1), 6);
    assert_eq!(doc.subtree_end(3), 5);
    assert_eq!(doc.subtree_end(5), 6);
    assert_eq!(doc.subtree_end(7), 8);
    assert_eq!(doc.siblings_end(3), 6);
    assert_eq!(doc.siblings_end(1), 8);
    assert_eq!(doc.siblings_end(0), 8);
    assert_eq!(doc.parent(0), None);
    assert_eq!(doc.parent(1), Some(0));
    assert_eq!(doc.parent(4), Some(3));
    assert_eq!(doc.parent(5), Some(1));
    assert_eq!(doc.parent(6), Some(0));
    assert_eq!(doc.children(0), vec![1, 6]);
    assert_eq!(doc.children(1), vec![2, 3, 5]);
    assert_eq!(doc.children(5), Vec::<usize>::new());
    assert_eq!(doc.child_elements(1), vec![3, 5]);
    assert_eq!(doc.following_siblings(2), vec![3, 5]);
    assert_eq!(doc.following_siblings(1), vec![6]);
    assert_eq!(doc.following_siblings(6), Vec::<usize>::new());
    assert_eq!(doc.elements_among(&vec![7, 6, 2, 1, 100]), vec![6, 1]);
    assert_eq!(doc.text_runs(1), vec!["t1".to_string(), "t2".to_string()]);
    assert_eq!(doc.text_runs(0), vec!["t1".to_string(), "t2".to_string(), "t3".to_string()]);
    assert_eq!(doc.text_runs(4), vec!["t2".to_string()]);
    assert_eq!(doc.text_runs(5), Vec::<String>::new());
}

#[test]
fn attributes_are_found_by_name() {
    let doc = handmade();
    assert_eq!(doc.attr(1, "href"), Some("/a".to_string()));
    assert_eq!(doc.attr(1, "id"), Some("plain".to_string()));
    assert_eq!(doc.id(1), Some("ns".to_string()));
    assert_eq!(doc.attr(6, "href"), None);
    assert_eq!(doc.attr(3, "href"), None);
    assert_eq!(doc.id(3), None);
}

#[test]
fn marks_select_in_document_order_within_a_scope() {
    let doc = handmade();
    let marks = vec![false, true, false, true, false, false, true];
    assert_eq!(doc.select_all(&marks), vec![1, 3, 6]);
    assert_eq!(doc.select_in(&marks, 1), vec![3]);
    assert_eq!(doc.select_in(&marks, 0), vec![1, 3, 6]);
    assert_eq!(doc.select_in(&marks, 6), Vec::<usize>::new());
    assert_eq!(doc.selected_between(&marks, 2, 100), vec![3, 6]);
    assert_eq!(first_href(&doc, &marks, 0).unwrap(), "/a");
    assert!(matches!(first_href(&doc, &marks, 1), Err(Error::InvalidStructure(m)) if m == "Missing href attribute"));
    assert!(matches!(first_href(&doc, &marks, 6), Err(Error::InvalidStructure(m)) if m == "Missing href attribute"));
    assert_eq!(hrefs_of(&doc, &vec![6, 1, 3, 1]), vec!["/a".to_string(), "/a".to_string()]);
    assert_eq!(anchor_section(&doc, &vec![false, false, false, true]).unwrap(), vec![6]);
    assert_eq!(anchor_section(&doc, &vec![false, false, true]).unwrap(), vec![6]);
    assert!(anchor_section(&doc, &vec![true]).is_err());
    assert!(anchor_section(&doc, &vec![]).is_err());
}

#[test]
fn links_and_texts_of_an_infobox_entry_are_read() {
    let doc = read_page(
        r#"<div id="e"><h3>Label</h3><div> <a href="/one"> One <b>bold</b> </a> and <a>none</a> <a href="/two">Two</a></div></div>"#,
    );
    let entry = doc.select_all(&doc.marks("#e").unwrap())[0];
    assert_eq!(
        parse_infobox_single_data_named_urls(&doc, entry),
        vec![
            NamedUrl::new("One bold".to_string(), "/one".to_string()),
            NamedUrl::new("Two".to_string(), "/two".to_string()),
        ]
    );
    assert_eq!(
        parse_infobox_single_data_text(&doc, entry),
        Some("  One bold  and none Two".to_string())
    );
    let leaf = doc.select_all(&doc.marks("h3").unwrap())[0];
    assert_eq!(parse_infobox_single_data_text(&doc, leaf), None);
    assert_eq!(extract_href(&doc, entry, "a").unwrap(), "/one");
    assert_eq!(extract_href(&doc, entry, "a:nth-of-type(3)").unwrap(), "/two");
    assert!(matches!(extract_href(&doc, entry, "a:nth-of-type(2)"), Err(Error::InvalidStructure(m)) if m == "Missing href attribute"));
    assert!(matches!(extract_href(&doc, entry, "a["), Err(Error::InvalidStructure(m)) if m == "Invalid selector: a["));
    assert_eq!(
        extract_all_href(&doc, entry, "a").unwrap(),
        vec!["/one".to_string(), "/two".to_string()]
    );
    assert_eq!(extract_all_href(&doc, leaf, "a").unwrap(), Vec::<String>::new());
}

#[test]
fn title_paragraph_and_category_are_read_off_a_page() {
    let doc = read_page(
        r#"<html><body><page-header__categories><a href="/wiki/Category:Non-Canon_Ships">x</a></page-header__categories>
        <main><span class="mw-page-title-main"><i>The</i> Title</span><div id="mw-content-text"><p>1</p><p>2</p><p>Third
 <b>para</b>graph</p></div></main></body></html>"#,
    );
    assert_eq!(parse_main_page_title(&doc).unwrap(), "The");
    assert_eq!(parse_main_page_first_paragraph(&doc).unwrap(), "Third paragraph");
    assert_eq!(parse_is_non_cannon(&doc).unwrap(), true);
    let plain = read_page(r#"<main><span class="mw-page-title-main"></span></main>"#);
    assert!(matches!(parse_main_page_title(&plain), Err(Error::InvalidStructure(m)) if m == "invalid title page element"));
    assert!(matches!(parse_main_page_first_paragraph(&plain), Err(Error::InvalidStructure(m)) if m == "invalid first paragraph element"));
    assert_eq!(parse_is_non_cannon(&plain).unwrap(), false);
    assert_eq!(parse_picture_url(&plain).unwrap(), Vec::<String>::new());
}

#[test]
fn a_page_within_the_limit_is_read() {
    assert_eq!(opdb_scraper::dom::MAX_PAGE_CHARS, 0x3FFF_FFFF);
    let doc = Document::parse("<p>é</p>").unwrap();
    assert_eq!(doc.html, "<p>é</p>");
    let marks = doc.marks("p").unwrap();
    assert_eq!(marks.len(), doc.nodes.len());
}
