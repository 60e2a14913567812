use super::models::{Ship, ShipView};
use crate::category::{crawled, CategoryScraper, UrlCrawler};
use crate::fetcher::{FetchHtml, HtmlFetcher};
use crate::pipeline::{enrich, enriched, path_views};
use crate::rerun_laws::{
    alike_by_path, all_alike, cache_of_store, deterministic, lemma_crawls_agree,
    lemma_runs_agree, parse_agrees,
};
use crate::fetcher::same_answers;
use crate::dom::{
    attr_of, marks_of, document_nodes, selected_all, selected_in, Document, NodeView,
};
use crate::pirates::scraper::{first_or_default, text_or_empty, STAT_SELECTOR};
use crate::text::same_text;
use crate::types::{named_url_views, Error, NamedJpEn, NamedUrl};
use crate::utils::{
    cleaned_html, cleanup_html, first_paragraph_of, is_structure_error, last_child_text,
    link_marks, link_marks_of, named_urls_at, named_urls_in, non_cannon_of,
    parse_infobox_single_data_text, parse_is_non_cannon, parse_main_page_first_paragraph,
    parse_main_page_title, parse_picture_url, picture_urls_of, title_of,
};
use vstd::prelude::*;

verus! {

/// The category from which the crawl for ships starts.
pub const SHIPS_ROOT: &'static str = "/wiki/Category:Ships";

/// What the infobox of a ship says of it.
pub ghost struct ShipStats {
    pub name: Seq<char>,
    pub status: Seq<char>,
    pub affiliation: (Seq<char>, Seq<char>),
}

/// The first of `links`, or a link without name and path.
pub open spec fn first_link(links: Seq<(Seq<char>, Seq<char>)>) -> (Seq<char>, Seq<char>) {
    if links.len() > 0 {
        links[0]
    } else {
        (Seq::empty(), Seq::empty())
    }
}

/// What the infobox entries at `stats` say of a ship, read in order, `link` marking the
/// links of the page. An entry is read by its `data-source`: `rname` gives the name,
/// `status` the status, `affiliation` the first of its links; of each the last one stands.
pub open spec fn ship_stats(nodes: Seq<NodeView>, link: Seq<bool>, stats: Seq<usize>) -> ShipStats
    decreases stats.len(),
{
    if stats.len() == 0 {
        ShipStats {
            name: Seq::empty(),
            status: Seq::empty(),
            affiliation: (Seq::empty(), Seq::empty()),
        }
    } else {
        let prev = ship_stats(nodes, link, stats.drop_last());
        let el = stats.last() as int;
        match attr_of(nodes, el, "data-source"@) {
            None => prev,
            Some(kind) => if kind == "rname"@ {
                ShipStats { name: text_or_empty(last_child_text(nodes, el)), ..prev }
            } else if kind == "status"@ {
                ShipStats { status: text_or_empty(last_child_text(nodes, el)), ..prev }
            } else if kind == "affiliation"@ {
                ShipStats {
                    affiliation: first_link(named_urls_at(nodes, selected_in(nodes, link, el))),
                    ..prev
                }
            } else {
                prev
            },
        }
    }
}

/// The ship that the page with the text `html` and the nodes `nodes` describes, `url` being
/// the path of the page; or the message of the structure error that reading it gives.
pub open spec fn ship_of(html: Seq<char>, nodes: Seq<NodeView>, url: Seq<char>) -> Result<
    ShipView,
    Seq<char>,
> {
    match picture_urls_of(html, nodes) {
        Err(e) => Err(e),
        Ok(pics) => match title_of(html, nodes) {
            Err(e) => Err(e),
            Ok(en_name) => match first_paragraph_of(html, nodes) {
                Err(e) => Err(e),
                Ok(description) => match non_cannon_of(html, nodes) {
                    Err(e) => Err(e),
                    Ok(non_cannon) => match marks_of(html, STAT_SELECTOR@) {
                        Err(e) => Err(e),
                        Ok(stat) => {
                            let stats = ship_stats(
                                nodes,
                                link_marks_of(html),
                                selected_all(nodes, stat),
                            );
                            Ok(
                                ShipView {
                                    name: stats.name,
                                    en_name,
                                    description,
                                    affiliation: stats.affiliation,
                                    status: stats.status,
                                    pic_url: if pics.len() > 0 {
                                        pics[0]
                                    } else {
                                        Seq::empty()
                                    },
                                    non_cannon,
                                    url,
                                },
                            )
                        },
                    },
                },
            },
        },
    }
}

/// `r` is the ship that `expected` holds, or the structure error whose message it holds.
pub open spec fn is_ship(r: Result<Ship, Error>, expected: Result<ShipView, Seq<char>>) -> bool {
    match expected {
        Ok(v) => r matches Ok(s) && s@ == v,
        Err(msg) => is_structure_error(r, msg),
    }
}

/// The first of `links`, or a link without name and path.
pub fn first_link_or_default(links: &Vec<NamedUrl>) -> (r: NamedUrl)
    ensures
        (r.name@, r.url@) == first_link(named_url_views(links@)),
{
    if links.len() > 0 {
        links[0].duplicate()
    } else {
        NamedUrl::default()
    }
}

/// The ship that a parsed page describes, `ship_url` being the path of the page.
pub fn ship_from_document(doc: &Document, ship_url: String) -> (r: Result<Ship, Error>)
    ensures
        is_ship(r, ship_of(doc.html@, doc@, ship_url@)),
{
    let pics = parse_picture_url(doc)?;
    let pic_url = first_or_default(&pics);
    let en_name = parse_main_page_title(doc)?;
    let description = parse_main_page_first_paragraph(doc)?;
    let non_cannon = parse_is_non_cannon(doc)?;
    let stat = doc.marks(STAT_SELECTOR)?;
    let link = link_marks(doc);
    let stats = doc.select_all(&stat);
    let mut name = String::new();
    let mut status = String::new();
    let mut affiliation = NamedUrl::default();
    let mut j: usize = 0;
    while j < stats.len()
        invariant
            j <= stats.len(),
            forall|k: int| 0 <= k < stats.len() ==> #[trigger] stats[k] < doc.nodes.len(),
            ship_stats(doc@, link@, stats@.take(j as int)) == (ShipStats {
                name: name@,
                status: status@,
                affiliation: (affiliation.name@, affiliation.url@),
            }),
        decreases stats.len() - j,
    {
        assert(stats@.take(j + 1).drop_last() == stats@.take(j as int));
        let el = stats[j];
        match doc.attr(el, "data-source") {
            Some(kind) => {
                if same_text(kind.as_str(), "rname") {
                    name = match parse_infobox_single_data_text(doc, el) {
                        Some(t) => t,
                        None => String::new(),
                    };
                } else if same_text(kind.as_str(), "status") {
                    status = match parse_infobox_single_data_text(doc, el) {
                        Some(t) => t,
                        None => String::new(),
                    };
                } else if same_text(kind.as_str(), "affiliation") {
                    let links = named_urls_in(doc, &link, el);
                    affiliation = first_link_or_default(&links);
                }
            },
            None => {},
        }
        j += 1;
    }
    assert(stats@.take(stats.len() as int) == stats@);
    Ok(
        Ship::new(
            NamedJpEn::new(name, en_name, description),
            ship_url,
            pic_url,
            affiliation,
            status,
            non_cannon,
        ),
    )
}

/// The ship that the page `html` describes, `ship_url` being the path of the page.
/// Footnote marks are taken out of the page before it is read.
pub fn parse_ship_detail(html: String, ship_url: String) -> (r: Result<Ship, Error>)
    ensures
        is_ship(r, ship_of(cleaned_html(html@), document_nodes(cleaned_html(html@)), ship_url@)),
{
    let cleaned = cleanup_html(html);
    let doc = Document::parse(cleaned.as_str())?;
    ship_from_document(&doc, ship_url)
}

/// Reads the ships of the wiki: crawls their categories and reads the page of each ship.
pub struct ShipScraper<C: FetchHtml, U: UrlCrawler> {
    pub fetcher: HtmlFetcher<C>,
    pub category_crawler: U,
}

impl<C: FetchHtml, U: UrlCrawler> ShipScraper<C, U> {
    /// A scraper that finds the ships with `category_crawler` and fetches their pages with
    /// `fetcher`.
    pub fn new(fetcher: HtmlFetcher<C>, category_crawler: U) -> (r: Self)
        ensures
            r.fetcher == fetcher,
            r.category_crawler == category_crawler,
    {
        Self { fetcher, category_crawler }
    }

    /// `ships` is something that the scrape may give when the strict crawl of the
    /// categories of ships gave `paths`: the pages at `paths` enriched.
    pub open spec fn ships_from(before: Self, paths: Vec<String>, ships: Seq<Ship>, after: Self) -> bool {
        before.category_crawler.gives_nested(
            SHIPS_ROOT@,
            true,
            Ok::<Vec<String>, Error>(paths),
            after.category_crawler,
        ) && enriched(
            before.fetcher.client,
            before.fetcher.base_url@,
            before.fetcher.cache@,
            paths@,
            parse_ship_detail,
            ships,
            after.fetcher.cache@,
            after.fetcher.client,
        )
    }

    /// `ships` is something that the scrape may give where the crawl succeeds.
    pub open spec fn ships_given(before: Self, ships: Seq<Ship>, after: Self) -> bool {
        exists|paths: Vec<String>| #[trigger] Self::ships_from(before, paths, ships, after)
    }

    /// The ships, in ascending order of their paths. The categories of ships are crawled
    /// strictly: if the crawl fails, the scrape fails with its error and fetches no page.
    /// The pages that the crawl found are then fetched and read one after another; a page
    /// that cannot be fetched or read is left out.
    pub fn scrape(&mut self) -> (r: Result<Vec<Ship>, Error>)
        ensures
            final(self).fetcher.base_url == old(self).fetcher.base_url,
            match r {
                Err(e) => old(self).category_crawler.gives_nested(
                    SHIPS_ROOT@,
                    true,
                    Err::<Vec<String>, Error>(e),
                    final(self).category_crawler,
                ) && final(self).fetcher == old(self).fetcher,
                Ok(ships) => Self::ships_given(*old(self), ships@, *final(self)),
            },
    {
        let paths = match self.category_crawler.get_nested_href(SHIPS_ROOT, true) {
            Ok(paths) => paths,
            Err(e) => {
                return Err(e);
            },
        };
        let ghost found = paths;
        let ships = enrich(&mut self.fetcher, paths, parse_ship_detail);
        assert(Self::ships_from(*old(self), found, ships@, *self));
        assert(Self::ships_given(*old(self), ships@, *self));
        Ok(ships)
    }
}

/// Two ships are alike: they are the same in every field.
pub open spec fn same_ship() -> spec_fn(Ship, Ship) -> bool {
    |x: Ship, y: Ship| x@ == y@
}

/// What is read off the same page at the same path is the same ship, or a failure both
/// times; and ships that are alike have the same path.
pub proof fn lemma_ships_are_read_alike()
    ensures
        parse_agrees(parse_ship_detail, same_ship()),
        alike_by_path(same_ship()),
{
    assert forall|
        html_a: String,
        path_a: String,
        r1: Result<Ship, Error>,
        html_b: String,
        path_b: String,
        r2: Result<Ship, Error>,
    |
        #![trigger call_ensures(parse_ship_detail, (html_a, path_a), r1), call_ensures(parse_ship_detail, (html_b, path_b), r2)]
        html_a@ == html_b@ && path_a@ == path_b@ && call_ensures(parse_ship_detail, (html_a, path_a), r1) && call_ensures(
            parse_ship_detail,
            (html_b, path_b),
            r2,
        ) implies crate::rerun_laws::same_result(same_ship(), r1, r2) by {
        let expected = ship_of(cleaned_html(html_a@), document_nodes(cleaned_html(html_a@)), path_a@);
        assert(is_ship(r1, expected));
        assert(is_ship(r2, expected));
    }
}

/// Run twice over one store that answers the same each time, the scrape gives the same
/// ships, field by field and in the same order, where the crawls gave the same paths: on
/// fresh fetchers or on fetchers that hold texts of the store already, and whatever the
/// order in which the pages were read.
pub proof fn lemma_ship_scrapes_agree<C: FetchHtml, U: UrlCrawler>(
    before1: ShipScraper<C, U>,
    paths1: Vec<String>,
    ships1: Seq<Ship>,
    after1: ShipScraper<C, U>,
    before2: ShipScraper<C, U>,
    paths2: Vec<String>,
    ships2: Seq<Ship>,
    after2: ShipScraper<C, U>,
)
    requires
        ShipScraper::ships_from(before1, paths1, ships1, after1),
        ShipScraper::ships_from(before2, paths2, ships2, after2),
        path_views(paths1@) == path_views(paths2@),
        before2.fetcher.base_url@ == before1.fetcher.base_url@,
        same_answers(before1.fetcher.client, before2.fetcher.client),
        deterministic(before1.fetcher.client),
        cache_of_store(before1.fetcher.client, before1.fetcher.base_url@, before1.fetcher.cache@),
        cache_of_store(before1.fetcher.client, before1.fetcher.base_url@, before2.fetcher.cache@),
    ensures
        all_alike(same_ship(), ships1, ships2),
{
    lemma_ships_are_read_alike();
    lemma_runs_agree(
        same_ship(),
        parse_ship_detail,
        before1.fetcher.base_url@,
        before1.fetcher.client,
        before1.fetcher.cache@,
        paths1@,
        ships1,
        after1.fetcher.cache@,
        after1.fetcher.client,
        before2.fetcher.client,
        before2.fetcher.cache@,
        paths2@,
        ships2,
        after2.fetcher.cache@,
        after2.fetcher.client,
    );
}

/// The fetchers `first` and `second` ask one store that answers the same each time, under
/// one address, and hold nothing but texts of that store.
pub open spec fn over_one_store<C: FetchHtml>(first: HtmlFetcher<C>, second: HtmlFetcher<C>) -> bool {
    &&& second.base_url@ == first.base_url@
    &&& same_answers(first.client, second.client)
    &&& deterministic(first.client)
    &&& cache_of_store(first.client, first.base_url@, first.cache@)
    &&& cache_of_store(first.client, first.base_url@, second.cache@)
}

/// Running the scrape twice over one store that answers the same each time gives the same
/// ships, field by field and in the same order: with a crawler that crawls the categories
/// itself, on fresh fetchers or on fetchers that were used before.
pub proof fn lemma_ships_scraped_twice_agree<C: FetchHtml, D: FetchHtml>(
    before1: ShipScraper<C, CategoryScraper<D>>,
    ships1: Seq<Ship>,
    after1: ShipScraper<C, CategoryScraper<D>>,
    before2: ShipScraper<C, CategoryScraper<D>>,
    ships2: Seq<Ship>,
    after2: ShipScraper<C, CategoryScraper<D>>,
)
    requires
        ShipScraper::ships_given(before1, ships1, after1),
        ShipScraper::ships_given(before2, ships2, after2),
        over_one_store(before1.fetcher, before2.fetcher),
        over_one_store(before1.category_crawler.fetcher, before2.category_crawler.fetcher),
    ensures
        all_alike(same_ship(), ships1, ships2),
{
    let paths1 = choose|paths: Vec<String>| #[trigger]
        ShipScraper::ships_from(before1, paths, ships1, after1);
    let paths2 = choose|paths: Vec<String>| #[trigger]
        ShipScraper::ships_from(before2, paths, ships2, after2);
    let r1 = Ok::<Vec<String>, Error>(paths1);
    let r2 = Ok::<Vec<String>, Error>(paths2);
    let a1 = choose|answers: Seq<Result<String, Error>>| #[trigger]
        crawled(
            before1.category_crawler.fetcher,
            SHIPS_ROOT@,
            true,
            answers,
            r1,
            after1.category_crawler.fetcher,
        );
    let a2 = choose|answers: Seq<Result<String, Error>>| #[trigger]
        crawled(
            before2.category_crawler.fetcher,
            SHIPS_ROOT@,
            true,
            answers,
            r2,
            after2.category_crawler.fetcher,
        );
    lemma_crawls_agree(
        before1.category_crawler.fetcher,
        a1,
        r1,
        after1.category_crawler.fetcher,
        before2.category_crawler.fetcher,
        a2,
        r2,
        after2.category_crawler.fetcher,
        SHIPS_ROOT@,
        true,
    );
    assert(path_views(paths1@) =~= paths1.deep_view());
    assert(path_views(paths2@) =~= paths2.deep_view());
    lemma_ship_scrapes_agree(before1, paths1, ships1, after1, before2, paths2, ships2, after2);
}

} // verus!
