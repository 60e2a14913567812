use crate::dom::{
    attr_of, child_elements_of, marks_of, elements_among, following_siblings, parent_of,
    selected_all, selected_in, text_runs, Document, NodeView,
};
use crate::pattern::{regex_removed, remove_all};
use crate::text::{
    before_marker, contains, has_substring, join, joined, split_before, strip_newlines, trim,
    trimmed, without_newlines,
};
use crate::types::{invalid_structure, named_url_views, Error, NamedUrl};
use vstd::prelude::*;

verus! {

/// The pattern of a footnote mark.
pub const SUP_PATTERN: &'static str = "<sup.*?>.*?</sup>";

/// The links of a category page to its members.
pub const MEMBER_LINK_SELECTOR: &'static str = "li.category-page__member a.category-page__member-link";

/// The picture links of an infobox.
pub const PICTURE_SELECTOR: &'static str = "aside.portable-infobox figure.pi-image>a.image";

/// The title of a page.
pub const TITLE_SELECTOR: &'static str = ".mw-page-title-main";

/// The paragraph that opens a page.
pub const FIRST_PARAGRAPH_SELECTOR: &'static str = "main #mw-content-text p:nth-of-type(3)";

/// The links to the categories of a page.
pub const CATEGORY_LINK_SELECTOR: &'static str = "page-header__categories a";

/// Any link.
pub const LINK_SELECTOR: &'static str = "a";

/// The first link among its siblings.
pub const FIRST_LINK_SELECTOR: &'static str = "a:nth-of-type(1)";

/// `html` without its footnote marks.
pub open spec fn cleaned_html(html: Seq<char>) -> Seq<char> {
    match regex_removed(SUP_PATTERN@, html) {
        Some(t) => t,
        None => html,
    }
}

/// Takes the footnote marks out of a page.
pub fn cleanup_html(html_source: String) -> (r: String)
    ensures
        r@ == cleaned_html(html_source@),
{
    match remove_all(SUP_PATTERN, html_source.as_str()) {
        Some(t) => t,
        None => html_source,
    }
}

/// The `href` values of the nodes at `at`, in order, leaving out the nodes that have none.
pub open spec fn hrefs_at(nodes: Seq<NodeView>, at: Seq<usize>) -> Seq<Seq<char>>
    decreases at.len(),
{
    if at.len() == 0 {
        Seq::empty()
    } else if at.last() < nodes.len() && attr_of(nodes, at.last() as int, "href"@) is Some {
        hrefs_at(nodes, at.drop_last()).push(attr_of(nodes, at.last() as int, "href"@)->0)
    } else {
        hrefs_at(nodes, at.drop_last())
    }
}

/// The `href` values of the nodes at `at`.
pub fn hrefs_of(doc: &Document, at: &Vec<usize>) -> (r: Vec<String>)
    ensures
        r.deep_view() == hrefs_at(doc@, at@),
{
    let mut out: Vec<String> = Vec::new();
    let mut j: usize = 0;
    while j < at.len()
        invariant
            j <= at.len(),
            out.deep_view() == hrefs_at(doc@, at@.take(j as int)),
        decreases at.len() - j,
    {
        assert(at@.take(j + 1).drop_last() == at@.take(j as int));
        if at[j] < doc.nodes.len() {
            match doc.attr(at[j], "href") {
                Some(h) => {
                    let ghost before = out.deep_view();
                    out.push(h);
                    assert(out.deep_view() =~= before.push(h@));
                },
                None => {},
            }
        }
        j += 1;
    }
    assert(at@.take(at.len() as int) == at@);
    out
}

/// `r` is the text `t`.
pub open spec fn is_text(r: Result<String, Error>, t: Seq<char>) -> bool {
    r matches Ok(v) && v@ == t
}

/// `r` is the list of texts `t`.
pub open spec fn is_texts(r: Result<Vec<String>, Error>, t: Seq<Seq<char>>) -> bool {
    r matches Ok(v) && v.deep_view() == t
}

/// `r` is a structure error that says `msg`.
pub open spec fn is_structure_error<T>(r: Result<T, Error>, msg: Seq<char>) -> bool {
    r matches Err(e) && e.is_structure(msg)
}

/// `r` is the text that `expected` holds, or the structure error whose message it holds.
pub open spec fn text_result(r: Result<String, Error>, expected: Result<Seq<char>, Seq<char>>) -> bool {
    match expected {
        Ok(t) => is_text(r, t),
        Err(msg) => is_structure_error(r, msg),
    }
}

/// `r` is the list of texts that `expected` holds, or the structure error whose message it
/// holds.
pub open spec fn texts_result(
    r: Result<Vec<String>, Error>,
    expected: Result<Seq<Seq<char>>, Seq<char>>,
) -> bool {
    match expected {
        Ok(t) => is_texts(r, t),
        Err(msg) => is_structure_error(r, msg),
    }
}

/// The `href` of the first element that `marks` marks below `scope`.
pub open spec fn first_href_in(nodes: Seq<NodeView>, marks: Seq<bool>, scope: int) -> Option<Seq<char>> {
    let at = selected_in(nodes, marks, scope);
    if at.len() > 0 {
        attr_of(nodes, at[0] as int, "href"@)
    } else {
        None
    }
}

/// The `href` of the first element that `marks` marks below `scope`. It is a structure
/// error if no element is marked there, or if the first one has no `href`.
pub fn first_href(doc: &Document, marks: &Vec<bool>, scope: usize) -> (r: Result<String, Error>)
    requires
        scope < doc.nodes.len(),
    ensures
        match first_href_in(doc@, marks@, scope as int) {
            Some(h) => is_text(r, h),
            None => is_structure_error(r, "Missing href attribute"@),
        },
{
    let at = doc.select_in(marks, scope);
    if at.len() > 0 {
        match doc.attr(at[0], "href") {
            Some(h) => Ok(h),
            None => Err(invalid_structure("Missing href attribute")),
        }
    } else {
        Err(invalid_structure("Missing href attribute"))
    }
}

/// The `href` of the first element below `scope` that `selector` selects.
pub fn extract_href(doc: &Document, scope: usize, selector: &str) -> (r: Result<String, Error>)
    requires
        scope < doc.nodes.len(),
    ensures
        match marks_of(doc.html@, selector@) {
            Err(e) => is_structure_error(r, e),
            Ok(m) => match first_href_in(doc@, m, scope as int) {
                Some(h) => is_text(r, h),
                None => is_structure_error(r, "Missing href attribute"@),
            },
        },
{
    let marks = doc.marks(selector)?;
    first_href(doc, &marks, scope)
}

/// The `href` values of the elements below `scope` that `selector` selects, in document
/// order; an element without `href` is passed over.
pub fn extract_all_href(doc: &Document, scope: usize, selector: &str) -> (r: Result<
    Vec<String>,
    Error,
>)
    requires
        scope < doc.nodes.len(),
    ensures
        match marks_of(doc.html@, selector@) {
            Err(e) => is_structure_error(r, e),
            Ok(m) => is_texts(r, hrefs_at(doc@, selected_in(doc@, m, scope as int))),
        },
{
    let marks = doc.marks(selector)?;
    let at = doc.select_in(&marks, scope);
    Ok(hrefs_of(doc, &at))
}

/// The `href` values of the elements of the whole page that `selector` selects, in document
/// order; an element without `href` is passed over.
pub fn extract_page_href(doc: &Document, selector: &str) -> (r: Result<Vec<String>, Error>)
    ensures
        match marks_of(doc.html@, selector@) {
            Err(e) => is_structure_error(r, e),
            Ok(m) => is_texts(r, hrefs_at(doc@, selected_all(doc@, m))),
        },
{
    let marks = doc.marks(selector)?;
    let at = doc.select_all(&marks);
    Ok(hrefs_of(doc, &at))
}

/// The elements among the siblings that follow the parent of the anchor, the anchor being
/// the first element that `marks` marks; nothing if there is no anchor or it has no parent.
pub open spec fn anchor_siblings(nodes: Seq<NodeView>, marks: Seq<bool>) -> Option<Seq<usize>> {
    let at = selected_all(nodes, marks);
    if at.len() == 0 {
        None
    } else {
        match parent_of(nodes, at[0] as int) {
            None => None,
            Some(p) => Some(elements_among(nodes, following_siblings(nodes, p as int))),
        }
    }
}

/// The elements that follow the parent of the anchor among its siblings, in document order.
/// It is a structure error if the page has no anchor, or the anchor no parent.
pub fn anchor_section(doc: &Document, marks: &Vec<bool>) -> (r: Result<Vec<usize>, Error>)
    ensures
        match anchor_siblings(doc@, marks@) {
            Some(at) => r matches Ok(v) && v@ == at,
            None => is_structure_error(r, "invalid sibling node"@),
        },
        r matches Ok(v) ==> forall|k: int| 0 <= k < v.len() ==> #[trigger] v[k] < doc.nodes.len(),
{
    let at = doc.select_all(marks);
    if at.len() == 0 {
        return Err(invalid_structure("invalid sibling node"));
    }
    match doc.parent(at[0]) {
        None => Err(invalid_structure("invalid sibling node")),
        Some(p) => {
            let after = doc.following_siblings(p);
            Ok(doc.elements_among(&after))
        },
    }
}

/// The text of the first element that follows the anchor's parent.
pub open spec fn first_sibling_text(nodes: Seq<NodeView>, marks: Seq<bool>) -> Result<Seq<char>, Seq<char>> {
    match anchor_siblings(nodes, marks) {
        None => Err("invalid sibling node"@),
        Some(at) => if at.len() == 0 {
            Err("invalid element"@)
        } else {
            Ok(joined(text_runs(nodes, at[0] as int)))
        },
    }
}

/// The text of the first element that follows the parent of the element that `selector`
/// selects first.
pub fn get_first_parents_sibling_text(doc: &Document, selector: &str) -> (r: Result<String, Error>)
    ensures
        match marks_of(doc.html@, selector@) {
            Err(e) => is_structure_error(r, e),
            Ok(m) => match first_sibling_text(doc@, m) {
                Ok(t) => is_text(r, t),
                Err(msg) => is_structure_error(r, msg),
            },
        },
{
    let marks = doc.marks(selector)?;
    let at = anchor_section(doc, &marks)?;
    if at.len() == 0 {
        return Err(invalid_structure("invalid element"));
    }
    let runs = doc.text_runs(at[0]);
    Ok(join(&runs))
}

/// Each of `links` up to its version mark `?cb=`.
pub open spec fn without_versions(links: Seq<Seq<char>>) -> Seq<Seq<char>> {
    links.map_values(|l: Seq<char>| before_marker(l, "?cb="@))
}

/// Each of `links` up to its version mark `?cb=`.
pub fn strip_versions(links: &Vec<String>) -> (r: Vec<String>)
    ensures
        r.deep_view() == without_versions(links.deep_view()),
{
    let mut out: Vec<String> = Vec::new();
    let mut j: usize = 0;
    while j < links.len()
        invariant
            j <= links.len(),
            out.len() == j,
            forall|k: int| 0 <= k < j ==> (#[trigger] out[k])@ == before_marker(links[k]@, "?cb="@),
        decreases links.len() - j,
    {
        out.push(split_before(links[j].as_str(), "?cb="));
        j += 1;
    }
    assert(out.deep_view() =~= without_versions(links.deep_view()));
    out
}

/// The pictures of the infobox of the page with the text `html` and the nodes `nodes`.
pub open spec fn picture_urls_of(html: Seq<char>, nodes: Seq<NodeView>) -> Result<
    Seq<Seq<char>>,
    Seq<char>,
> {
    match marks_of(html, PICTURE_SELECTOR@) {
        Err(e) => Err(e),
        Ok(m) => Ok(without_versions(hrefs_at(nodes, selected_all(nodes, m)))),
    }
}

/// The pictures of the infobox of a page, each without its version mark.
pub fn parse_picture_url(doc: &Document) -> (r: Result<Vec<String>, Error>)
    ensures
        texts_result(r, picture_urls_of(doc.html@, doc@)),
{
    let links = extract_page_href(doc, PICTURE_SELECTOR)?;
    Ok(strip_versions(&links))
}

/// The first run of text of the first element that `marks` marks.
pub open spec fn first_text_of_first(nodes: Seq<NodeView>, marks: Seq<bool>) -> Option<Seq<char>> {
    let at = selected_all(nodes, marks);
    if at.len() > 0 && text_runs(nodes, at[0] as int).len() > 0 {
        Some(text_runs(nodes, at[0] as int)[0])
    } else {
        None
    }
}

/// The title of the page with the text `html` and the nodes `nodes`.
pub open spec fn title_of(html: Seq<char>, nodes: Seq<NodeView>) -> Result<Seq<char>, Seq<char>> {
    match marks_of(html, TITLE_SELECTOR@) {
        Err(e) => Err(e),
        Ok(m) => match first_text_of_first(nodes, m) {
            Some(t) => Ok(t),
            None => Err("invalid title page element"@),
        },
    }
}

/// The title of a page: the first run of text of its title element.
pub fn parse_main_page_title(doc: &Document) -> (r: Result<String, Error>)
    ensures
        text_result(r, title_of(doc.html@, doc@)),
{
    let marks = doc.marks(TITLE_SELECTOR)?;
    let at = doc.select_all(&marks);
    if at.len() == 0 {
        return Err(invalid_structure("invalid title page element"));
    }
    let mut runs = doc.text_runs(at[0]);
    if runs.len() == 0 {
        return Err(invalid_structure("invalid title page element"));
    }
    let ghost all = runs.deep_view();
    let first = runs.swap_remove(0);
    assert(first@ == all[0]);
    Ok(first)
}

/// All the text of the first element that `marks` marks, without line feeds.
pub open spec fn flat_text_of_first(nodes: Seq<NodeView>, marks: Seq<bool>) -> Option<Seq<char>> {
    let at = selected_all(nodes, marks);
    if at.len() > 0 {
        Some(without_newlines(joined(text_runs(nodes, at[0] as int))))
    } else {
        None
    }
}

/// The paragraph that opens the page with the text `html` and the nodes `nodes`.
pub open spec fn first_paragraph_of(html: Seq<char>, nodes: Seq<NodeView>) -> Result<
    Seq<char>,
    Seq<char>,
> {
    match marks_of(html, FIRST_PARAGRAPH_SELECTOR@) {
        Err(e) => Err(e),
        Ok(m) => match flat_text_of_first(nodes, m) {
            Some(t) => Ok(t),
            None => Err("invalid first paragraph element"@),
        },
    }
}

/// The paragraph that opens a page, on one line. Footnote marks are to be taken out of the
/// page before it is read.
pub fn parse_main_page_first_paragraph(doc: &Document) -> (r: Result<String, Error>)
    ensures
        text_result(r, first_paragraph_of(doc.html@, doc@)),
{
    let marks = doc.marks(FIRST_PARAGRAPH_SELECTOR)?;
    let at = doc.select_all(&marks);
    if at.len() == 0 {
        return Err(invalid_structure("invalid first paragraph element"));
    }
    let runs = doc.text_runs(at[0]);
    Ok(strip_newlines(join(&runs).as_str()))
}

/// All the text of the last child element of node `el`.
pub open spec fn last_child_text(nodes: Seq<NodeView>, el: int) -> Option<Seq<char>> {
    let kids = child_elements_of(nodes, el);
    if kids.len() > 0 {
        Some(joined(text_runs(nodes, kids.last() as int)))
    } else {
        None
    }
}

/// The value of an infobox entry that holds text: the text of its last child element.
pub fn parse_infobox_single_data_text(doc: &Document, el: usize) -> (r: Option<String>)
    requires
        el < doc.nodes.len(),
    ensures
        match last_child_text(doc@, el as int) {
            Some(t) => r matches Some(v) && v@ == t,
            None => r is None,
        },
{
    let kids = doc.child_elements(el);
    if kids.len() == 0 {
        return None;
    }
    let runs = doc.text_runs(kids[kids.len() - 1]);
    Some(join(&runs))
}

/// The links at `at`, in order: for each node that has an `href`, its trimmed text and that
/// `href`.
pub open spec fn named_urls_at(nodes: Seq<NodeView>, at: Seq<usize>) -> Seq<(Seq<char>, Seq<char>)>
    decreases at.len(),
{
    if at.len() == 0 {
        Seq::empty()
    } else if at.last() < nodes.len() && attr_of(nodes, at.last() as int, "href"@) is Some {
        named_urls_at(nodes, at.drop_last()).push(
            (
                trimmed(joined(text_runs(nodes, at.last() as int))),
                attr_of(nodes, at.last() as int, "href"@)->0,
            ),
        )
    } else {
        named_urls_at(nodes, at.drop_last())
    }
}

/// The links below node `el` among the elements that `marks` marks.
pub fn named_urls_in(doc: &Document, marks: &Vec<bool>, el: usize) -> (r: Vec<NamedUrl>)
    requires
        el < doc.nodes.len(),
    ensures
        named_url_views(r@) == named_urls_at(
            doc@,
            selected_in(doc@, marks@, el as int),
        ),
{
    let at = doc.select_in(marks, el);
    let mut out: Vec<NamedUrl> = Vec::new();
    let mut j: usize = 0;
    while j < at.len()
        invariant
            j <= at.len(),
            forall|k: int| 0 <= k < at.len() ==> #[trigger] at[k] < doc.nodes.len(),
            named_url_views(out@) == named_urls_at(doc@, at@.take(j as int)),
        decreases at.len() - j,
    {
        assert(at@.take(j + 1).drop_last() == at@.take(j as int));
        match doc.attr(at[j], "href") {
            Some(h) => {
                let runs = doc.text_runs(at[j]);
                let name = trim(join(&runs).as_str());
                let ghost before = out@;
                out.push(NamedUrl::new(name, h));
                assert(named_url_views(out@) =~= named_url_views(before).push((name@, h@)));
            },
            None => {},
        }
        j += 1;
    }
    assert(at@.take(at.len() as int) == at@);
    out
}

/// What marks the links of the page with the text `html`; nothing is marked if the
/// selector for links cannot be read.
pub open spec fn link_marks_of(html: Seq<char>) -> Seq<bool> {
    match marks_of(html, LINK_SELECTOR@) {
        Ok(m) => m,
        Err(_) => Seq::empty(),
    }
}

/// What marks the links of a page.
pub fn link_marks(doc: &Document) -> (r: Vec<bool>)
    ensures
        r@ == link_marks_of(doc.html@),
{
    match doc.marks(LINK_SELECTOR) {
        Ok(marks) => marks,
        Err(_) => Vec::new(),
    }
}

/// The links of an infobox entry: every `a` element below `el` that has an `href`.
pub fn parse_infobox_single_data_named_urls(doc: &Document, el: usize) -> (r: Vec<NamedUrl>)
    requires
        el < doc.nodes.len(),
    ensures
        named_url_views(r@) == named_urls_at(
            doc@,
            selected_in(doc@, link_marks_of(doc.html@), el as int),
        ),
{
    let marks = link_marks(doc);
    named_urls_in(doc, &marks, el)
}

/// One of `texts` holds `pat`.
pub open spec fn some_has_substring(texts: Seq<Seq<char>>, pat: Seq<char>) -> bool {
    exists|k: int| 0 <= k < texts.len() && has_substring(#[trigger] texts[k], pat)
}

/// Whether one of `texts` holds `pat`.
pub fn any_contains(texts: &Vec<String>, pat: &str) -> (r: bool)
    ensures
        r == some_has_substring(texts.deep_view(), pat@),
{
    let mut j: usize = 0;
    while j < texts.len()
        invariant
            j <= texts.len(),
            forall|k: int| 0 <= k < j ==> !has_substring(#[trigger] texts.deep_view()[k], pat@),
        decreases texts.len() - j,
    {
        if contains(texts[j].as_str(), pat) {
            assert(has_substring(texts.deep_view()[j as int], pat@));
            return true;
        }
        j += 1;
    }
    false
}

/// Whether the page with the text `html` and the nodes `nodes` is filed under a category
/// of what is not canon.
pub open spec fn non_cannon_of(html: Seq<char>, nodes: Seq<NodeView>) -> Result<bool, Seq<char>> {
    match marks_of(html, CATEGORY_LINK_SELECTOR@) {
        Err(e) => Err(e),
        Ok(m) => Ok(
            some_has_substring(hrefs_at(nodes, selected_all(nodes, m)), "Category:Non-Canon"@),
        ),
    }
}

/// Whether a page is filed under a category of what is not canon.
pub fn parse_is_non_cannon(doc: &Document) -> (r: Result<bool, Error>)
    ensures
        match non_cannon_of(doc.html@, doc@) {
            Ok(b) => r == Ok::<bool, Error>(b),
            Err(msg) => is_structure_error(r, msg),
        },
{
    let links = extract_page_href(doc, CATEGORY_LINK_SELECTOR)?;
    Ok(any_contains(&links, "Category:Non-Canon"))
}

} // verus!
