use super::models::{Pirate, PirateView};
use crate::category::{same_members, UrlCrawler};
use crate::fetcher::{FetchHtml, HtmlFetcher};
use crate::pipeline::{enrich, enriched};
use crate::dom::{
    attr_of, marks_of, document_nodes, selected_all, selected_in, Document, NodeView,
};
use crate::category::is_category;
use crate::text::{contains, has_substring, same_text};
use crate::types::{named_url_views, Error, NamedJpEn, NamedUrl};
use crate::utils::{
    cleaned_html, cleanup_html, first_paragraph_of, is_structure_error, last_child_text,
    link_marks, link_marks_of, named_urls_at, named_urls_in, non_cannon_of,
    parse_infobox_single_data_text, parse_is_non_cannon, parse_main_page_first_paragraph,
    parse_main_page_title, parse_picture_url, picture_urls_of, title_of,
};
use vstd::prelude::*;

verus! {

/// The entries of the infobox of a page.
pub const STAT_SELECTOR: &'static str = "aside.portable-infobox>section .pi-data";

/// What the infobox of a crew says of it.
pub ghost struct CrewStats {
    pub name: Seq<char>,
    pub captain: Seq<(Seq<char>, Seq<char>)>,
    pub ship: Seq<(Seq<char>, Seq<char>)>,
}

/// `t`, or the empty text where there is none.
pub open spec fn text_or_empty(t: Option<Seq<char>>) -> Seq<char> {
    match t {
        Some(t) => t,
        None => Seq::empty(),
    }
}

/// The first and the sixth of `links`, as far as they exist.
pub open spec fn first_and_sixth(links: Seq<(Seq<char>, Seq<char>)>) -> Seq<(Seq<char>, Seq<char>)> {
    (if links.len() > 0 {
        seq![links[0]]
    } else {
        Seq::empty()
    }) + (if links.len() > 5 {
        seq![links[5]]
    } else {
        Seq::empty()
    })
}

/// What the infobox entries at `stats` say of a crew, read in order, `link` marking the
/// links of the page. An entry is read by its `data-source`: `rname` gives the name, the last
/// one standing; `captain` and `extra1` add their links to the captains; `ship` adds its
/// first and its sixth link to the ships. Other entries say nothing.
pub open spec fn crew_stats(nodes: Seq<NodeView>, link: Seq<bool>, stats: Seq<usize>) -> CrewStats
    decreases stats.len(),
{
    if stats.len() == 0 {
        CrewStats { name: Seq::empty(), captain: Seq::empty(), ship: Seq::empty() }
    } else {
        let prev = crew_stats(nodes, link, stats.drop_last());
        let el = stats.last() as int;
        let links = named_urls_at(nodes, selected_in(nodes, link, el));
        match attr_of(nodes, el, "data-source"@) {
            None => prev,
            Some(kind) => if kind == "rname"@ {
                CrewStats { name: text_or_empty(last_child_text(nodes, el)), ..prev }
            } else if kind == "captain"@ || kind == "extra1"@ {
                CrewStats { captain: prev.captain + links, ..prev }
            } else if kind == "ship"@ {
                CrewStats { ship: prev.ship + first_and_sixth(links), ..prev }
            } else {
                prev
            },
        }
    }
}

/// The crew that the page with the text `html` and the nodes `nodes` describes, `url` being
/// the path of the page; or the message of the structure error that reading it gives.
pub open spec fn pirate_of(html: Seq<char>, nodes: Seq<NodeView>, url: Seq<char>) -> Result<
    PirateView,
    Seq<char>,
> {
    match picture_urls_of(html, nodes) {
        Err(e) => Err(e),
        Ok(pics) => match first_paragraph_of(html, nodes) {
            Err(e) => Err(e),
            Ok(description) => match title_of(html, nodes) {
                Err(e) => Err(e),
                Ok(en_name) => match non_cannon_of(html, nodes) {
                    Err(e) => Err(e),
                    Ok(non_cannon) => match marks_of(html, STAT_SELECTOR@) {
                        Err(e) => Err(e),
                        Ok(stat) => {
                            let stats = crew_stats(
                                nodes,
                                link_marks_of(html),
                                selected_all(nodes, stat),
                            );
                            Ok(
                                PirateView {
                                    name: stats.name,
                                    en_name,
                                    description,
                                    ship: stats.ship,
                                    captain: stats.captain,
                                    pic_url: if pics.len() > 0 {
                                        pics[0]
                                    } else {
                                        Seq::empty()
                                    },
                                    non_cannon,
                                    url,
                                },
                            )
                        },
                    },
                },
            },
        },
    }
}

/// `r` is the crew that `expected` holds, or the structure error whose message it holds.
pub open spec fn is_pirate(r: Result<Pirate, Error>, expected: Result<PirateView, Seq<char>>) -> bool {
    match expected {
        Ok(v) => r matches Ok(p) && p@ == v,
        Err(msg) => is_structure_error(r, msg),
    }
}

/// The first of `texts`, or the empty text.
pub fn first_or_default(texts: &Vec<String>) -> (r: String)
    ensures
        r@ == (if texts.len() > 0 {
            texts[0]@
        } else {
            Seq::<char>::empty()
        }),
{
    if texts.len() > 0 {
        texts[0].clone()
    } else {
        String::new()
    }
}

/// The first and the sixth of `links`, as far as they exist.
pub fn pick_first_and_sixth(links: &Vec<NamedUrl>) -> (r: Vec<NamedUrl>)
    ensures
        named_url_views(r@) == first_and_sixth(named_url_views(links@)),
{
    let mut out: Vec<NamedUrl> = Vec::new();
    if links.len() > 0 {
        out.push(links[0].duplicate());
    }
    if links.len() > 5 {
        out.push(links[5].duplicate());
    }
    assert(named_url_views(out@) =~= first_and_sixth(named_url_views(links@)));
    out
}

/// The crew that a parsed page describes, `pirate_url` being the path of the page.
pub fn pirate_from_document(doc: &Document, pirate_url: String) -> (r: Result<Pirate, Error>)
    ensures
        is_pirate(r, pirate_of(doc.html@, doc@, pirate_url@)),
{
    let pics = parse_picture_url(doc)?;
    let pic_url = first_or_default(&pics);
    let description = parse_main_page_first_paragraph(doc)?;
    let en_name = parse_main_page_title(doc)?;
    let non_cannon = parse_is_non_cannon(doc)?;
    let stat = doc.marks(STAT_SELECTOR)?;
    let link = link_marks(doc);
    let stats = doc.select_all(&stat);
    let mut name = String::new();
    let mut captain: Vec<NamedUrl> = Vec::new();
    let mut ship: Vec<NamedUrl> = Vec::new();
    let mut j: usize = 0;
    assert(named_url_views(captain@) =~= Seq::empty());
    assert(named_url_views(ship@) =~= Seq::empty());
    while j < stats.len()
        invariant
            j <= stats.len(),
            forall|k: int| 0 <= k < stats.len() ==> #[trigger] stats[k] < doc.nodes.len(),
            crew_stats(doc@, link@, stats@.take(j as int)) == (CrewStats {
                name: name@,
                captain: named_url_views(captain@),
                ship: named_url_views(ship@),
            }),
        decreases stats.len() - j,
    {
        assert(stats@.take(j + 1).drop_last() == stats@.take(j as int));
        let el = stats[j];
        match doc.attr(el, "data-source") {
            Some(kind) => {
                if same_text(kind.as_str(), "rname") {
                    name = match parse_infobox_single_data_text(doc, el) {
                        Some(t) => t,
                        None => String::new(),
                    };
                } else if same_text(kind.as_str(), "captain") || same_text(
                    kind.as_str(),
                    "extra1",
                ) {
                    let mut links = named_urls_in(doc, &link, el);
                    let ghost before = named_url_views(captain@);
                    let ghost added = named_url_views(links@);
                    captain.append(&mut links);
                    assert(named_url_views(captain@) =~= before + added);
                } else if same_text(kind.as_str(), "ship") {
                    let links = named_urls_in(doc, &link, el);
                    let mut picked = pick_first_and_sixth(&links);
                    let ghost before = named_url_views(ship@);
                    let ghost added = named_url_views(picked@);
                    ship.append(&mut picked);
                    assert(named_url_views(ship@) =~= before + added);
                }
            },
            None => {},
        }
        j += 1;
    }
    assert(stats@.take(stats.len() as int) == stats@);
    Ok(
        Pirate::new(
            NamedJpEn::new(name, en_name, description),
            pirate_url,
            ship,
            captain,
            pic_url,
            non_cannon,
        ),
    )
}

/// The crew that the page `html` describes, `pirate_url` being the path of the page.
/// Footnote marks are taken out of the page before it is read.
pub fn parse_pirate_detail(html: String, pirate_url: String) -> (r: Result<Pirate, Error>)
    ensures
        is_pirate(
            r,
            pirate_of(cleaned_html(html@), document_nodes(cleaned_html(html@)), pirate_url@),
        ),
{
    let cleaned = cleanup_html(html);
    let doc = Document::parse(cleaned.as_str())?;
    pirate_from_document(&doc, pirate_url)
}

/// The category from which the crawl for crews starts: the crews by sea.
pub const CREWS_BY_SEA: &'static str = "/wiki/Category:Pirate_Crews_by_Sea";

/// A page that is listed among the crews and is none.
pub const NOT_A_CREW: &'static str = "/wiki/New_Donquixote_Family";

/// A path leads to a category of what is not canon.
pub open spec fn is_non_canon(path: Seq<char>) -> bool {
    has_substring(path, "Category:Non-Canon"@)
}

/// Those of `paths` that lead to no category of what is not canon, in order.
pub open spec fn canon_only(paths: Seq<Seq<char>>) -> Seq<Seq<char>>
    decreases paths.len(),
{
    if paths.len() == 0 {
        Seq::empty()
    } else if !is_non_canon(paths.last()) {
        canon_only(paths.drop_last()).push(paths.last())
    } else {
        canon_only(paths.drop_last())
    }
}

/// Those of `paths` that may be crews, in order: what leads to no category of what is not
/// canon and is not the page that is known to be no crew.
pub open spec fn crews_only(paths: Seq<Seq<char>>) -> Seq<Seq<char>>
    decreases paths.len(),
{
    if paths.len() == 0 {
        Seq::empty()
    } else if !is_non_canon(paths.last()) && paths.last() != NOT_A_CREW@ {
        crews_only(paths.drop_last()).push(paths.last())
    } else {
        crews_only(paths.drop_last())
    }
}

/// The first position from `from` on at which `paths` holds a category.
pub open spec fn category_from(paths: Seq<Seq<char>>, from: int) -> Option<int>
    decreases paths.len() - from,
{
    if from < 0 || from >= paths.len() {
        None
    } else if is_category(paths[from]) {
        Some(from)
    } else {
        category_from(paths, from + 1)
    }
}

/// `paths` without the path at `i`, the last path taking its place.
pub open spec fn without_path(paths: Seq<Seq<char>>, i: int) -> Seq<Seq<char>> {
    paths.update(i, paths.last()).drop_last()
}

/// Those of `paths` that lead to no category of what is not canon.
pub fn keep_canon(paths: Vec<String>) -> (r: Vec<String>)
    ensures
        r.deep_view() == canon_only(paths.deep_view()),
{
    let ghost all = paths.deep_view();
    let mut out: Vec<String> = Vec::new();
    let mut i: usize = 0;
    while i < paths.len()
        invariant
            i <= paths.len(),
            all == paths.deep_view(),
            out.deep_view() == canon_only(all.take(i as int)),
        decreases paths.len() - i,
    {
        assert(all.take(i + 1).drop_last() == all.take(i as int));
        assert(all.take(i + 1).last() == paths[i as int]@);
        if !contains(paths[i].as_str(), "Category:Non-Canon") {
            let ghost before = out.deep_view();
            out.push(paths[i].clone());
            assert(out.deep_view() =~= before.push(paths[i as int]@));
        }
        i += 1;
    }
    assert(all.take(paths.len() as int) == all);
    out
}

/// Those of `paths` that may be crews.
pub fn keep_crews(paths: Vec<String>) -> (r: Vec<String>)
    ensures
        r.deep_view() == crews_only(paths.deep_view()),
{
    let ghost all = paths.deep_view();
    let mut out: Vec<String> = Vec::new();
    let mut i: usize = 0;
    while i < paths.len()
        invariant
            i <= paths.len(),
            all == paths.deep_view(),
            out.deep_view() == crews_only(all.take(i as int)),
        decreases paths.len() - i,
    {
        assert(all.take(i + 1).drop_last() == all.take(i as int));
        assert(all.take(i + 1).last() == paths[i as int]@);
        if !contains(paths[i].as_str(), "Category:Non-Canon") && !same_text(
            paths[i].as_str(),
            NOT_A_CREW,
        ) {
            let ghost before = out.deep_view();
            out.push(paths[i].clone());
            assert(out.deep_view() =~= before.push(paths[i as int]@));
        }
        i += 1;
    }
    assert(all.take(paths.len() as int) == all);
    out
}

/// Takes the first category out of `paths` and hands it out; the last path takes its
/// place. Where `paths` holds no category, nothing changes.
pub fn take_nested_category(paths: &mut Vec<String>) -> (r: Option<String>)
    ensures
        match category_from(old(paths).deep_view(), 0) {
            Some(i) => (r matches Some(c) && c@ == old(paths).deep_view()[i])
                && final(paths).deep_view() == without_path(old(paths).deep_view(), i),
            None => r is None && final(paths).deep_view() == old(paths).deep_view(),
        },
{
    let ghost all = paths.deep_view();
    let mut i: usize = 0;
    while i < paths.len()
        invariant
            i <= paths.len(),
            all == paths.deep_view(),
            paths == old(paths),
            category_from(all, 0) == category_from(all, i as int),
        decreases paths.len() - i,
    {
        if contains(paths[i].as_str(), "Category:") {
            let nested = paths.swap_remove(i);
            assert(paths.deep_view() =~= without_path(all, i as int));
            return Some(nested);
        }
        i += 1;
    }
    None
}

/// The paths of the crews of one sea, from the members of its category. The members that
/// lead to categories of what is not canon are left out. If a category is left among the
/// rest, the first one is taken out and handed out with the list: its members are to be
/// added with `add_nested_members`.
pub fn plan_sea(members: Vec<String>) -> (r: (Vec<String>, Option<String>))
    ensures
        match category_from(canon_only(members.deep_view()), 0) {
            Some(i) => (r.1 matches Some(c) && c@ == canon_only(members.deep_view())[i])
                && r.0.deep_view() == without_path(canon_only(members.deep_view()), i),
            None => r.1 is None && r.0.deep_view() == canon_only(members.deep_view()),
        },
{
    let mut paths = keep_canon(members);
    let nested = take_nested_category(&mut paths);
    (paths, nested)
}

/// Adds to `paths` those of the members `members` of the nested category that may be
/// crews.
pub fn add_nested_members(paths: &mut Vec<String>, members: Vec<String>)
    ensures
        final(paths).deep_view() == old(paths).deep_view() + crews_only(members.deep_view()),
{
    let ghost before = paths.deep_view();
    let mut crews = keep_crews(members);
    let ghost added = crews.deep_view();
    paths.append(&mut crews);
    assert(paths.deep_view() =~= before + added);
}

/// `paths` is something that the crews of the sea `sea` may come to with the crawler
/// `crawler`: the members of the sea's category that lead to no category of what is not
/// canon; where a category is among them, the first one gives way to those of its own
/// members that may be crews.
pub open spec fn sea_gives<U: UrlCrawler>(crawler: U, sea: Seq<char>, paths: Seq<Seq<char>>) -> bool {
    exists|members: Vec<String>|
        #![trigger crawler.gives_members(sea, Ok(members))]
        crawler.gives_members(sea, Ok(members)) && match category_from(
            canon_only(members.deep_view()),
            0,
        ) {
            None => paths == canon_only(members.deep_view()),
            Some(i) => exists|nested: Vec<String>|
                #![trigger crawler.gives_members(canon_only(members.deep_view())[i], Ok(nested))]
                crawler.gives_members(canon_only(members.deep_view())[i], Ok(nested)) && paths
                    == without_path(canon_only(members.deep_view()), i) + crews_only(
                    nested.deep_view(),
                ),
        }
}

/// The lists of `lists`, one after another.
pub open spec fn all_of(lists: Seq<Seq<Seq<char>>>) -> Seq<Seq<char>>
    decreases lists.len(),
{
    if lists.len() == 0 {
        Seq::empty()
    } else {
        all_of(lists.drop_last()) + lists.last()
    }
}

/// `by_sea` gives for each of the seas `seas` something that its crews may come to.
pub open spec fn listed_by_sea<U: UrlCrawler>(
    crawler: U,
    seas: Seq<Seq<char>>,
    by_sea: Seq<Seq<Seq<char>>>,
) -> bool {
    by_sea.len() == seas.len() && forall|k: int|
        0 <= k < seas.len() ==> sea_gives(crawler, seas[k], #[trigger] by_sea[k])
}

/// `paths` is something that the crews of the seas `seas` may come to, sea after sea.
pub open spec fn seas_give<U: UrlCrawler>(
    crawler: U,
    seas: Seq<Seq<char>>,
    paths: Seq<Seq<char>>,
) -> bool {
    exists|by_sea: Seq<Seq<Seq<char>>>| #[trigger]
        listed_by_sea(crawler, seas, by_sea) && paths == all_of(by_sea)
}

/// `paths` is something that the crews of the wiki may come to: those of the seas that are
/// members of the category of crews by sea and lead to no category of what is not canon.
pub open spec fn crews_listed<U: UrlCrawler>(crawler: U, paths: Seq<Seq<char>>) -> bool {
    exists|seas: Vec<String>|
        #![trigger crawler.gives_members(CREWS_BY_SEA@, Ok(seas))]
        crawler.gives_members(CREWS_BY_SEA@, Ok(seas)) && seas_give(
            crawler,
            canon_only(seas.deep_view()),
            paths,
        )
}

/// `e` is something that the crawler `crawler` may fail with over the sea `sea`: its failure
/// for the sea's category, or, where that category was listed and holds a category, its
/// failure for the first such category.
pub open spec fn sea_fails<U: UrlCrawler>(crawler: U, sea: Seq<char>, e: Error) -> bool {
    crawler.gives_members(sea, Err::<Vec<String>, Error>(e)) || exists|members: Vec<String>|
        #![trigger crawler.gives_members(sea, Ok(members))]
        crawler.gives_members(sea, Ok(members)) && (category_from(
            canon_only(members.deep_view()),
            0,
        ) matches Some(i) && crawler.gives_members(
            canon_only(members.deep_view())[i],
            Err::<Vec<String>, Error>(e),
        ))
}

/// The crawler `crawler` listed the seas `seas` and the crews of the first `k` of those
/// that lead to no category of what is not canon, and may fail with `e` over the next one.
pub open spec fn fails_at_sea<U: UrlCrawler>(
    crawler: U,
    seas: Vec<String>,
    k: int,
    by_sea: Seq<Seq<Seq<char>>>,
    e: Error,
) -> bool {
    let canon = canon_only(seas.deep_view());
    &&& crawler.gives_members(CREWS_BY_SEA@, Ok::<Vec<String>, Error>(seas))
    &&& 0 <= k < canon.len()
    &&& listed_by_sea(crawler, canon.take(k), by_sea)
    &&& sea_fails(crawler, canon[k], e)
}

/// `e` is something that finding the crews may fail with: the failure of the crawler for
/// the category of crews by sea, or, that category listed, its failure over the first sea
/// over which it fails, the seas being taken in the order in which they are listed.
pub open spec fn crews_fail<U: UrlCrawler>(crawler: U, e: Error) -> bool {
    crawler.gives_members(CREWS_BY_SEA@, Err::<Vec<String>, Error>(e)) || exists|
        seas: Vec<String>,
        k: int,
        by_sea: Seq<Seq<Seq<char>>>,
    | #[trigger]
        fails_at_sea(crawler, seas, k, by_sea, e)
}

/// Reads the pirate crews of the wiki: finds them sea by sea and reads the page of each.
pub struct PirateScraper<C: FetchHtml, U: UrlCrawler> {
    pub fetcher: HtmlFetcher<C>,
    pub category_crawler: U,
}

impl<C: FetchHtml, U: UrlCrawler> PirateScraper<C, U> {
    /// A scraper that finds the crews with `category_crawler` and fetches their pages with
    /// `fetcher`.
    pub fn new(fetcher: HtmlFetcher<C>, category_crawler: U) -> (r: Self)
        ensures
            r.fetcher == fetcher,
            r.category_crawler == category_crawler,
    {
        Self { fetcher, category_crawler }
    }

    /// The paths of the crews, sea after sea. If the crawler fails for the category of crews
    /// by sea, for the category of a sea or for the category found among a sea's members,
    /// the first such failure is the result; a category of what is not canon is not asked
    /// for.
    pub fn crew_paths(&mut self) -> (r: Result<Vec<String>, Error>)
        ensures
            final(self).fetcher == old(self).fetcher,
            same_members(old(self).category_crawler, final(self).category_crawler),
            match r {
                Ok(paths) => crews_listed(old(self).category_crawler, paths.deep_view()),
                Err(e) => crews_fail(old(self).category_crawler, e),
            },
    {
        let ghost crawler = self.category_crawler;
        let listed = self.category_crawler.get_href(CREWS_BY_SEA)?;
        let ghost all = listed;
        let seas = keep_canon(listed);
        let mut paths: Vec<String> = Vec::new();
        let ghost mut by_sea: Seq<Seq<Seq<char>>> = Seq::empty();
        let mut i: usize = 0;
        while i < seas.len()
            invariant
                i <= seas.len(),
                crawler == old(self).category_crawler,
                self.fetcher == old(self).fetcher,
                same_members(crawler, self.category_crawler),
                crawler.gives_members(CREWS_BY_SEA@, Ok::<Vec<String>, Error>(all)),
                seas.deep_view() == canon_only(all.deep_view()),
                listed_by_sea(crawler, seas.deep_view().take(i as int), by_sea),
                paths.deep_view() == all_of(by_sea),
            decreases seas.len() - i,
        {
            let ghost before = paths.deep_view();
            let ghost sea = seas[i as int]@;
            let members = match self.category_crawler.get_href(seas[i].as_str()) {
                Ok(members) => members,
                Err(e) => {
                    proof {
                        assert(crawler.gives_members(sea, Err::<Vec<String>, Error>(e)));
                        assert(sea_fails(crawler, sea, e));
                        assert(fails_at_sea(crawler, all, i as int, by_sea, e));
                    }
                    return Err(e);
                },
            };
            let ghost given = members;
            assert(crawler.gives_members(sea, Ok::<Vec<String>, Error>(given)));
            let (mut crews, nested) = plan_sea(members);
            match nested {
                Some(category) => {
                    let more = match self.category_crawler.get_href(category.as_str()) {
                        Ok(more) => more,
                        Err(e) => {
                            proof {
                                assert(crawler.gives_members(
                                    category@,
                                    Err::<Vec<String>, Error>(e),
                                ));
                                assert(sea_fails(crawler, sea, e));
                                assert(fails_at_sea(crawler, all, i as int, by_sea, e));
                            }
                            return Err(e);
                        },
                    };
                    let ghost listed_there = more;
                    add_nested_members(&mut crews, more);
                    assert(crawler.gives_members(
                        category@,
                        Ok::<Vec<String>, Error>(listed_there),
                    ));
                },
                None => {},
            }
            let ghost last = crews.deep_view();
            assert(sea_gives(crawler, sea, last));
            paths.append(&mut crews);
            proof {
                let earlier = by_sea;
                by_sea = earlier.push(last);
                assert(by_sea.drop_last() =~= earlier);
                assert(paths.deep_view() =~= before + last);
                let seen = seas.deep_view().take(i + 1);
                assert forall|k: int| 0 <= k < seen.len() implies sea_gives(
                    crawler,
                    seen[k],
                    #[trigger] by_sea[k],
                ) by {
                    if k < i {
                        assert(by_sea[k] == earlier[k]);
                        assert(seen[k] == seas.deep_view().take(i as int)[k]);
                    }
                }
            }
            i += 1;
        }
        assert(seas.deep_view().take(seas.len() as int) == seas.deep_view());
        assert(listed_by_sea(crawler, seas.deep_view(), by_sea));
        Ok(paths)
    }

    /// `crews` is something that the scrape may give when the crawler listed the crews at
    /// `paths`: the pages at `paths` enriched.
    pub open spec fn crews_from(before: Self, paths: Vec<String>, crews: Seq<Pirate>, after: Self) -> bool {
        crews_listed(before.category_crawler, paths.deep_view()) && enriched(
            before.fetcher.client,
            before.fetcher.base_url@,
            before.fetcher.cache@,
            paths@,
            parse_pirate_detail,
            crews,
            after.fetcher.cache@,
            after.fetcher.client,
        )
    }

    /// `crews` is something that the scrape may give where the crews could be listed.
    pub open spec fn crews_given(before: Self, crews: Seq<Pirate>, after: Self) -> bool {
        exists|paths: Vec<String>| #[trigger] Self::crews_from(before, paths, crews, after)
    }

    /// The crews, in ascending order of their paths. If the crawler fails for one of the
    /// categories, the scrape fails with that error and fetches no page. The pages of the
    /// crews are fetched and read one after another; a page that cannot be fetched or read
    /// is left out.
    pub fn scrape(&mut self) -> (r: Result<Vec<Pirate>, Error>)
        ensures
            final(self).fetcher.base_url == old(self).fetcher.base_url,
            same_members(old(self).category_crawler, final(self).category_crawler),
            match r {
                Err(e) => crews_fail(old(self).category_crawler, e) && final(self).fetcher
                    == old(self).fetcher,
                Ok(crews) => Self::crews_given(*old(self), crews@, *final(self)),
            },
    {
        let paths = match self.crew_paths() {
            Ok(paths) => paths,
            Err(e) => {
                return Err(e);
            },
        };
        let ghost found = paths;
        let crews = enrich(&mut self.fetcher, paths, parse_pirate_detail);
        assert(Self::crews_from(*old(self), found, crews@, *self));
        assert(Self::crews_given(*old(self), crews@, *self));
        Ok(crews)
    }
}

} // verus!
