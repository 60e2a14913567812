use super::models::{DevilFruit, DevilFruitName, DevilFruitView};
use super::types::{DfSubType, DfType};
use crate::dom::{
    child_elements_of, children_of, marks_of, following_siblings, id_of, text_runs, Document,
    NodeKind, NodeView,
};
use crate::pattern::{first_group, regex_first_group};
use crate::text::{join_range, joined, same_text, strip_newlines, without_newlines};
use crate::types::{invalid_structure, Error};
use crate::utils::{
    anchor_section, anchor_siblings, first_href, first_href_in, is_structure_error,
    FIRST_LINK_SELECTOR,
};
use vstd::prelude::*;

verus! {

/// How a list entry gives the English name of a fruit.
pub const EN_NAME_PATTERN: &'static str = "English version: (.+)";

/// How an entry of the list of Zoan fruits gives its description.
pub const ZOAN_DESCRIPTION_PATTERN: &'static str = "\\) \\- (.+)";

/// How an entry of the other lists gives its description.
pub const LIST_DESCRIPTION_PATTERN: &'static str = "\\): (.+)";

/// The entry of `found` for the run at `i`, nothing where `found` has none.
pub open spec fn found_at(found: Seq<Option<Seq<char>>>, i: int) -> Option<Seq<char>> {
    if 0 <= i < found.len() {
        found[i]
    } else {
        None
    }
}

/// The English name and the description that the runs of text from `from` on give, `en_name`
/// being the English name found so far. `en[i]` is the English name that run `i` gives,
/// `desc[i]` the start of the description that it gives. A run that gives an English name
/// sets it; the first other run that gives a description ends the search, and all the runs
/// after it, without their line feeds, are the rest of the description.
pub open spec fn scan_names(
    runs: Seq<Seq<char>>,
    en: Seq<Option<Seq<char>>>,
    desc: Seq<Option<Seq<char>>>,
    from: int,
    en_name: Seq<char>,
) -> (Seq<char>, Seq<char>)
    decreases runs.len() - from,
{
    if from < 0 || from >= runs.len() {
        (en_name, Seq::empty())
    } else if found_at(en, from) is Some {
        scan_names(runs, en, desc, from + 1, found_at(en, from)->0)
    } else if found_at(desc, from) is Some {
        (
            en_name,
            found_at(desc, from)->0 + without_newlines(
                joined(runs.subrange(from + 1, runs.len() as int)),
            ),
        )
    } else {
        scan_names(runs, en, desc, from + 1, en_name)
    }
}

/// The name, the English name and the description of a list entry whose runs of text are
/// `runs`: the first run is the name, the others are searched as `scan_names` says.
pub open spec fn name_detail(
    runs: Seq<Seq<char>>,
    en: Seq<Option<Seq<char>>>,
    desc: Seq<Option<Seq<char>>>,
) -> (Seq<char>, Seq<char>, Seq<char>) {
    let name = if runs.len() > 0 {
        runs[0]
    } else {
        Seq::empty()
    };
    let rest = scan_names(runs, en, desc, 1, Seq::empty());
    (name, rest.0, rest.1)
}

/// The text that `found` holds, if it holds one.
pub open spec fn found_view(found: Option<String>) -> Option<Seq<char>> {
    match found {
        Some(t) => Some(t@),
        None => None,
    }
}

/// The texts that `found` holds.
pub open spec fn found_views(found: Seq<Option<String>>) -> Seq<Option<Seq<char>>> {
    found.map_values(|f: Option<String>| found_view(f))
}

/// What `pattern` finds in each of `runs`.
pub open spec fn groups_of(pattern: Seq<char>, runs: Seq<Seq<char>>) -> Seq<Option<Seq<char>>> {
    runs.map_values(|t: Seq<char>| regex_first_group(pattern, t))
}

/// The name, the English name and the description of a list entry, from its runs of text
/// and from what the two patterns found in each run.
pub fn name_from_matches(
    runs: &Vec<String>,
    en: &Vec<Option<String>>,
    desc: &Vec<Option<String>>,
) -> (r: DevilFruitName)
    ensures
        (r.name@, r.en_name@, r.description@) == name_detail(
            runs.deep_view(),
            found_views(en@),
            found_views(desc@),
        ),
{
    let ghost rs = runs.deep_view();
    let ghost es = found_views(en@);
    let ghost ds = found_views(desc@);
    let name = if runs.len() > 0 {
        runs[0].clone()
    } else {
        String::new()
    };
    let mut en_name = String::new();
    let mut i: usize = 1;
    while i < runs.len()
        invariant
            1 <= i,
            name@ == name_detail(rs, es, ds).0,
            rs == runs.deep_view(),
            es == found_views(en@),
            ds == found_views(desc@),
            scan_names(rs, es, ds, 1, Seq::empty()) == scan_names(rs, es, ds, i as int, en_name@),
        decreases runs.len() - i,
    {
        if i < en.len() {
            match &en[i] {
                Some(g) => {
                    en_name = g.clone();
                    i += 1;
                    continue ;
                },
                None => {},
            }
        }
        assert(found_at(es, i as int) is None);
        if i < desc.len() {
            match &desc[i] {
                Some(d) => {
                    let rest = join_range(runs, i + 1, runs.len());
                    let mut description = d.clone();
                    description.append(strip_newlines(rest.as_str()).as_str());
                    return DevilFruitName::new(name, en_name, description);
                },
                None => {},
            }
        }
        assert(found_at(ds, i as int) is None);
        i += 1;
    }
    DevilFruitName::new(name, en_name, String::new())
}

/// What `pattern` finds in each of `runs`.
pub fn find_groups(pattern: &str, runs: &Vec<String>) -> (r: Vec<Option<String>>)
    ensures
        found_views(r@) == groups_of(pattern@, runs.deep_view()),
{
    let mut out: Vec<Option<String>> = Vec::new();
    let mut i: usize = 0;
    while i < runs.len()
        invariant
            i <= runs.len(),
            out.len() == i,
            forall|k: int|
                0 <= k < i ==> found_view(#[trigger] out[k]) == regex_first_group(
                    pattern@,
                    runs[k]@,
                ),
        decreases runs.len() - i,
    {
        let g = first_group(pattern, runs[i].as_str());
        out.push(g);
        i += 1;
    }
    assert(found_views(out@) =~= groups_of(pattern@, runs.deep_view()));
    out
}

/// The kinds listed in `entries` by path.
pub open spec fn entry_views(entries: Seq<(String, DfSubType)>) -> Seq<(Seq<char>, DfSubType)> {
    entries.map_values(|e: (String, DfSubType)| (e.0@, e.1))
}

/// The kind that `entries` gives for `path`: that of the last entry for it.
pub open spec fn sub_type_for(entries: Seq<(Seq<char>, DfSubType)>, path: Seq<char>) -> Option<
    DfSubType,
>
    decreases entries.len(),
{
    if entries.len() == 0 {
        None
    } else if entries.last().0 == path {
        Some(entries.last().1)
    } else {
        sub_type_for(entries.drop_last(), path)
    }
}

/// The kind that `entries` gives for `path`.
pub fn lookup_sub_type(entries: &Vec<(String, DfSubType)>, path: &str) -> (r: Option<DfSubType>)
    ensures
        r == sub_type_for(entry_views(entries@), path@),
{
    let ghost all = entry_views(entries@);
    let mut j: usize = entries.len();
    assert(all.take(j as int) == all);
    while j > 0
        invariant
            j <= entries.len(),
            all == entry_views(entries@),
            sub_type_for(all, path@) == sub_type_for(all.take(j as int), path@),
        decreases j,
    {
        j -= 1;
        assert(all.take(j + 1).drop_last() == all.take(j as int));
        assert(all.take(j + 1).last() == all[j as int]);
        if same_text(entries[j].0.as_str(), path) {
            return Some(entries[j].1);
        }
    }
    None
}

/// Every position of `at` is that of a node of `nodes`.
pub open spec fn all_within(at: Seq<usize>, nodes: Seq<NodeView>) -> bool {
    forall|k: int| 0 <= k < at.len() ==> #[trigger] at[k] < nodes.len()
}

/// Node `el` is a heading that ends the list of canon fruits: an `h3` whose first child is
/// an element with an id other than `Canon`.
pub open spec fn ends_canon_list(nodes: Seq<NodeView>, el: int) -> bool {
    let kids = children_of(nodes, el);
    &&& nodes[el].name == "h3"@
    &&& kids.len() > 0
    &&& nodes[kids[0] as int].kind == NodeKind::Element
    &&& id_of(nodes, kids[0] as int) is Some
    &&& id_of(nodes, kids[0] as int)->0 != "Canon"@
}

/// The positions of `at` that come before the first heading that ends the list.
pub open spec fn before_heading(nodes: Seq<NodeView>, at: Seq<usize>) -> Seq<usize>
    decreases at.len(),
{
    if at.len() == 0 || ends_canon_list(nodes, at[0] as int) {
        Seq::empty()
    } else {
        seq![at[0]] + before_heading(nodes, at.drop_first())
    }
}

/// Those of the positions `at` whose nodes are named `name`, in the same order.
pub open spec fn named_among(nodes: Seq<NodeView>, at: Seq<usize>, name: Seq<char>) -> Seq<usize>
    decreases at.len(),
{
    if at.len() == 0 {
        Seq::empty()
    } else if nodes[at.last() as int].name == name {
        named_among(nodes, at.drop_last(), name).push(at.last())
    } else {
        named_among(nodes, at.drop_last(), name)
    }
}

/// The child elements of the nodes at `at`, list after list.
pub open spec fn child_elements_of_all(nodes: Seq<NodeView>, at: Seq<usize>) -> Seq<usize>
    decreases at.len(),
{
    if at.len() == 0 {
        Seq::empty()
    } else {
        child_elements_of_all(nodes, at.drop_last()) + child_elements_of(nodes, at.last() as int)
    }
}

/// Whether node `el` is a heading that ends the list of canon fruits.
pub fn is_list_end(doc: &Document, el: usize) -> (r: bool)
    requires
        el < doc.nodes.len(),
    ensures
        r == ends_canon_list(doc@, el as int),
{
    if !same_text(doc.nodes[el].name.as_str(), "h3") {
        return false;
    }
    let kids = doc.children(el);
    if kids.len() == 0 {
        return false;
    }
    if !doc.nodes[kids[0]].is_element() {
        return false;
    }
    match doc.id(kids[0]) {
        Some(id) => !same_text(id.as_str(), "Canon"),
        None => false,
    }
}

/// The positions of `at` that come before the first heading that ends the list.
pub fn take_before_heading(doc: &Document, at: &Vec<usize>) -> (r: Vec<usize>)
    requires
        all_within(at@, doc@),
    ensures
        r@ == before_heading(doc@, at@),
        all_within(r@, doc@),
{
    let mut out: Vec<usize> = Vec::new();
    let mut j: usize = 0;
    assert(at@.skip(0) == at@);
    while j < at.len()
        invariant
            j <= at.len(),
            all_within(at@, doc@),
            all_within(out@, doc@),
            before_heading(doc@, at@) == out@ + before_heading(
                doc@,
                at@.skip(j as int),
            ),
        decreases at.len() - j,
    {
        let ghost rest = at@.skip(j as int);
        assert(rest[0] == at[j as int]);
        assert(rest.drop_first() == at@.skip(j + 1));
        if is_list_end(doc, at[j]) {
            assert(out@ + Seq::<usize>::empty() == out@);
            return out;
        }
        let ghost before = out@;
        out.push(at[j]);
        assert(before + (seq![at[j as int]] + before_heading(doc@, rest.drop_first()))
            == out@ + before_heading(doc@, at@.skip(j + 1)));
        j += 1;
    }
    assert(out@ + Seq::<usize>::empty() == out@);
    out
}

/// Those of the positions `at` whose nodes are named `name`.
pub fn keep_named(doc: &Document, at: &Vec<usize>, name: &str) -> (r: Vec<usize>)
    requires
        all_within(at@, doc@),
    ensures
        r@ == named_among(doc@, at@, name@),
        all_within(r@, doc@),
{
    let mut out: Vec<usize> = Vec::new();
    let mut j: usize = 0;
    while j < at.len()
        invariant
            j <= at.len(),
            all_within(at@, doc@),
            all_within(out@, doc@),
            out@ == named_among(doc@, at@.take(j as int), name@),
        decreases at.len() - j,
    {
        assert(at@.take(j + 1).drop_last() == at@.take(j as int));
        if same_text(doc.nodes[at[j]].name.as_str(), name) {
            out.push(at[j]);
        }
        j += 1;
    }
    assert(at@.take(at.len() as int) == at@);
    out
}

/// The child elements of the nodes at `at`, list after list.
pub fn child_elements_all(doc: &Document, at: &Vec<usize>) -> (r: Vec<usize>)
    requires
        all_within(at@, doc@),
    ensures
        r@ == child_elements_of_all(doc@, at@),
        all_within(r@, doc@),
{
    let mut out: Vec<usize> = Vec::new();
    let mut j: usize = 0;
    while j < at.len()
        invariant
            j <= at.len(),
            all_within(at@, doc@),
            all_within(out@, doc@),
            out@ == child_elements_of_all(doc@, at@.take(j as int)),
        decreases at.len() - j,
    {
        assert(at@.take(j + 1).drop_last() == at@.take(j as int));
        let mut kids = doc.child_elements(at[j]);
        out.append(&mut kids);
        j += 1;
    }
    assert(at@.take(at.len() as int) == at@);
    out
}

/// The fruits `fruits`, as values of specifications.
pub open spec fn fruit_views(fruits: Seq<DevilFruit>) -> Seq<DevilFruitView> {
    fruits.map_values(|f: DevilFruit| f@)
}

/// `r` is the list of fruits `expected`, or the structure error that `expected` names.
pub open spec fn is_fruits(
    r: Result<Vec<DevilFruit>, Error>,
    expected: Result<Seq<DevilFruitView>, Seq<char>>,
) -> bool {
    match expected {
        Ok(v) => r matches Ok(f) && fruit_views(f@) == v,
        Err(msg) => is_structure_error(r, msg),
    }
}

/// The fruit that the list entry at `el` describes: its path is the `href` of the first
/// link below it, its names come from its runs of text; a Zoan fruit has the kind that
/// `subs` gives for its path. Nothing if the entry has no such link.
pub open spec fn fruit_at(
    nodes: Seq<NodeView>,
    link: Seq<bool>,
    en_pattern: Seq<char>,
    desc_pattern: Seq<char>,
    df_type: DfType,
    subs: Seq<(Seq<char>, DfSubType)>,
    el: int,
) -> Option<DevilFruitView> {
    match first_href_in(nodes, link, el) {
        None => None,
        Some(path) => {
            let runs = text_runs(nodes, el);
            let names = name_detail(
                runs,
                groups_of(en_pattern, runs),
                groups_of(desc_pattern, runs),
            );
            Some(
                DevilFruitView {
                    df_type,
                    df_sub_type: if df_type == DfType::Zoan {
                        sub_type_for(subs, path)
                    } else {
                        None
                    },
                    name: names.0,
                    en_name: names.1,
                    description: names.2,
                    pic_url: Seq::empty(),
                    df_url: path,
                },
            )
        },
    }
}

/// The fruits that the list entries at `items` describe, in order; nothing if one of the
/// entries has no link.
pub open spec fn fruits_at(
    nodes: Seq<NodeView>,
    link: Seq<bool>,
    en_pattern: Seq<char>,
    desc_pattern: Seq<char>,
    df_type: DfType,
    subs: Seq<(Seq<char>, DfSubType)>,
    items: Seq<usize>,
) -> Option<Seq<DevilFruitView>>
    decreases items.len(),
{
    if items.len() == 0 {
        Some(Seq::empty())
    } else {
        match (
            fruits_at(nodes, link, en_pattern, desc_pattern, df_type, subs, items.drop_last()),
            fruit_at(nodes, link, en_pattern, desc_pattern, df_type, subs, items.last() as int),
        ) {
            (Some(v), Some(f)) => Some(v.push(f)),
            _ => None,
        }
    }
}

/// The paths of the list entries at `items`: for each the `href` of the first link below it.
/// Nothing if one of the entries has no link.
pub open spec fn paths_at(nodes: Seq<NodeView>, link: Seq<bool>, items: Seq<usize>) -> Option<
    Seq<Seq<char>>,
>
    decreases items.len(),
{
    if items.len() == 0 {
        Some(Seq::empty())
    } else {
        match (
            paths_at(nodes, link, items.drop_last()),
            first_href_in(nodes, link, items.last() as int),
        ) {
            (Some(v), Some(p)) => Some(v.push(p)),
            _ => None,
        }
    }
}

/// The child elements of the first `ul` among the nodes at `sibs`.
pub open spec fn first_list_items(nodes: Seq<NodeView>, sibs: Seq<usize>) -> Seq<usize> {
    let lists = named_among(nodes, sibs, "ul"@);
    if lists.len() > 0 {
        child_elements_of(nodes, lists[0] as int)
    } else {
        Seq::empty()
    }
}

/// An entry of the kind `kind` for each of `paths`.
pub open spec fn entries_for(paths: Seq<Seq<char>>, kind: DfSubType) -> Seq<(Seq<char>, DfSubType)> {
    paths.map_values(|p: Seq<char>| (p, kind))
}

/// The fruits of the kind `kind`, by path: the entries of the first list after the kind's
/// anchor.
pub open spec fn entries_of_kind(
    html: Seq<char>,
    nodes: Seq<NodeView>,
    link: Seq<bool>,
    kind: DfSubType,
) -> Result<Seq<(Seq<char>, DfSubType)>, Seq<char>> {
    match marks_of(html, kind.list_anchor()) {
        Err(e) => Err(e),
        Ok(anchor) => match anchor_siblings(nodes, anchor) {
            None => Err("invalid sibling node"@),
            Some(sibs) => match paths_at(nodes, link, first_list_items(nodes, sibs)) {
                None => Err("Missing href attribute"@),
                Some(paths) => Ok(entries_for(paths, kind)),
            },
        },
    }
}

/// The kinds of the Zoan fruits of a page, by path: first the ancient ones, then the
/// mythical ones.
pub open spec fn sub_type_entries(html: Seq<char>, nodes: Seq<NodeView>, link: Seq<bool>) -> Result<
    Seq<(Seq<char>, DfSubType)>,
    Seq<char>,
> {
    match entries_of_kind(html, nodes, link, DfSubType::AncientZoan) {
        Err(e) => Err(e),
        Ok(ancient) => match entries_of_kind(html, nodes, link, DfSubType::MythicalZoan) {
            Err(e) => Err(e),
            Ok(mythical) => Ok(ancient + mythical),
        },
    }
}

/// The list entries of the canon Zoan fruits among the nodes at `sibs`: the child elements
/// of every `ul` before the heading that ends the list.
pub open spec fn zoan_items(nodes: Seq<NodeView>, sibs: Seq<usize>) -> Seq<usize> {
    child_elements_of_all(nodes, named_among(nodes, before_heading(nodes, sibs), "ul"@))
}

/// The canon Zoan fruits of a page.
pub open spec fn canon_zoan_fruits(html: Seq<char>, nodes: Seq<NodeView>) -> Result<
    Seq<DevilFruitView>,
    Seq<char>,
> {
    match marks_of(html, FIRST_LINK_SELECTOR@) {
        Err(e) => Err(e),
        Ok(link) => match marks_of(html, DfType::Zoan.list_anchor()) {
            Err(e) => Err(e),
            Ok(anchor) => match anchor_siblings(nodes, anchor) {
                None => Err("invalid sibling node"@),
                Some(sibs) => match sub_type_entries(html, nodes, link) {
                    Err(e) => Err(e),
                    Ok(subs) => match fruits_at(
                        nodes,
                        link,
                        EN_NAME_PATTERN@,
                        ZOAN_DESCRIPTION_PATTERN@,
                        DfType::Zoan,
                        subs,
                        zoan_items(nodes, sibs),
                    ) {
                        None => Err("Missing href attribute"@),
                        Some(v) => Ok(v),
                    },
                },
            },
        },
    }
}

/// The list entries that follow the first `dl` among the nodes at `sibs` whose second
/// following sibling settles the matter: the child elements of that sibling if it is a
/// `ul`, an error if it is no element. A `dl` with fewer than two following siblings, or
/// with another element in that place, is passed over.
pub open spec fn list_after_dl(nodes: Seq<NodeView>, sibs: Seq<usize>) -> Result<
    Seq<usize>,
    Seq<char>,
>
    decreases sibs.len(),
{
    if sibs.len() == 0 {
        Ok(Seq::empty())
    } else {
        let after = following_siblings(nodes, sibs[0] as int);
        if nodes[sibs[0] as int].name == "dl"@ && after.len() >= 2 && nodes[after[1] as int].kind
            != NodeKind::Element {
            Err("invalid element node"@)
        } else if nodes[sibs[0] as int].name == "dl"@ && after.len() >= 2
            && nodes[after[1] as int].name == "ul"@ {
            Ok(child_elements_of(nodes, after[1] as int))
        } else {
            list_after_dl(nodes, sibs.drop_first())
        }
    }
}

/// The canon fruits of the page of a class that lists them after a `dl`.
pub open spec fn canon_list_fruits(html: Seq<char>, nodes: Seq<NodeView>, df_type: DfType) -> Result<
    Seq<DevilFruitView>,
    Seq<char>,
> {
    match marks_of(html, FIRST_LINK_SELECTOR@) {
        Err(e) => Err(e),
        Ok(link) => match marks_of(html, df_type.list_anchor()) {
            Err(e) => Err(e),
            Ok(anchor) => match anchor_siblings(nodes, anchor) {
                None => Err("invalid sibling node"@),
                Some(sibs) => match list_after_dl(nodes, sibs) {
                    Err(e) => Err(e),
                    Ok(items) => match fruits_at(
                        nodes,
                        link,
                        EN_NAME_PATTERN@,
                        LIST_DESCRIPTION_PATTERN@,
                        df_type,
                        Seq::empty(),
                        items,
                    ) {
                        None => Err("Missing href attribute"@),
                        Some(v) => Ok(v),
                    },
                },
            },
        },
    }
}

/// The paths of the list entries at `items`.
pub fn collect_paths(doc: &Document, link: &Vec<bool>, items: &Vec<usize>) -> (r: Result<
    Vec<String>,
    Error,
>)
    requires
        all_within(items@, doc@),
    ensures
        match paths_at(doc@, link@, items@) {
            Some(p) => r matches Ok(v) && v.deep_view() == p,
            None => is_structure_error(r, "Missing href attribute"@),
        },
{
    let mut out: Vec<String> = Vec::new();
    let mut j: usize = 0;
    while j < items.len()
        invariant
            j <= items.len(),
            all_within(items@, doc@),
            paths_at(doc@, link@, items@.take(j as int)) == Some(out.deep_view()),
        decreases items.len() - j,
    {
        assert(items@.take(j + 1).drop_last() == items@.take(j as int));
        match first_href(doc, link, items[j]) {
            Ok(p) => {
                let ghost before = out.deep_view();
                out.push(p);
                assert(out.deep_view() =~= before.push(p@));
            },
            Err(e) => {
                proof {
                    lemma_paths_fail(doc@, link@, items@, j + 1);
                }
                return Err(e);
            },
        }
        j += 1;
    }
    assert(items@.take(items.len() as int) == items@);
    Ok(out)
}

proof fn lemma_paths_fail(nodes: Seq<NodeView>, link: Seq<bool>, items: Seq<usize>, n: int)
    requires
        0 <= n <= items.len(),
        paths_at(nodes, link, items.take(n)) is None,
    ensures
        paths_at(nodes, link, items) is None,
    decreases items.len() - n,
{
    if n < items.len() {
        assert(items.take(n + 1).drop_last() == items.take(n));
        lemma_paths_fail(nodes, link, items, n + 1);
    } else {
        assert(items.take(n) == items);
    }
}

proof fn lemma_fruits_fail(
    nodes: Seq<NodeView>,
    link: Seq<bool>,
    en_pattern: Seq<char>,
    desc_pattern: Seq<char>,
    df_type: DfType,
    subs: Seq<(Seq<char>, DfSubType)>,
    items: Seq<usize>,
    n: int,
)
    requires
        0 <= n <= items.len(),
        fruits_at(nodes, link, en_pattern, desc_pattern, df_type, subs, items.take(n)) is None,
    ensures
        fruits_at(nodes, link, en_pattern, desc_pattern, df_type, subs, items) is None,
    decreases items.len() - n,
{
    if n < items.len() {
        assert(items.take(n + 1).drop_last() == items.take(n));
        lemma_fruits_fail(nodes, link, en_pattern, desc_pattern, df_type, subs, items, n + 1);
    } else {
        assert(items.take(n) == items);
    }
}

/// The fruits that the list entries at `items` describe.
pub fn collect_fruits(
    doc: &Document,
    link: &Vec<bool>,
    items: &Vec<usize>,
    df_type: DfType,
    subs: &Vec<(String, DfSubType)>,
    en_pattern: &str,
    desc_pattern: &str,
) -> (r: Result<Vec<DevilFruit>, Error>)
    requires
        all_within(items@, doc@),
    ensures
        is_fruits(
            r,
            match fruits_at(
                doc@,
                link@,
                en_pattern@,
                desc_pattern@,
                df_type,
                entry_views(subs@),
                items@,
            ) {
                Some(v) => Ok(v),
                None => Err("Missing href attribute"@),
            },
        ),
{
    let mut out: Vec<DevilFruit> = Vec::new();
    let mut j: usize = 0;
    while j < items.len()
        invariant
            j <= items.len(),
            all_within(items@, doc@),
            fruits_at(
                doc@,
                link@,
                en_pattern@,
                desc_pattern@,
                df_type,
                entry_views(subs@),
                items@.take(j as int),
            ) == Some(fruit_views(out@)),
        decreases items.len() - j,
    {
        assert(items@.take(j + 1).drop_last() == items@.take(j as int));
        match first_href(doc, link, items[j]) {
            Ok(path) => {
                let names = Utils::parse_df_name(doc, items[j], en_pattern, desc_pattern);
                let fruit = match df_type {
                    DfType::Zoan => {
                        let sub_type = lookup_sub_type(subs, path.as_str());
                        DevilFruit::zoan(sub_type, names, String::new(), path)
                    },
                    _ => DevilFruit::non_zoan(df_type, names, String::new(), path),
                };
                let ghost before = out@;
                out.push(fruit);
                assert(fruit_views(out@) =~= fruit_views(before).push(fruit@));
            },
            Err(e) => {
                proof {
                    lemma_fruits_fail(
                        doc@,
                        link@,
                        en_pattern@,
                        desc_pattern@,
                        df_type,
                        entry_views(subs@),
                        items@,
                        j + 1,
                    );
                }
                return Err(e);
            },
        }
        j += 1;
    }
    assert(items@.take(items.len() as int) == items@);
    Ok(out)
}

/// What the parsers of the fruit lists share.
pub struct Utils;

impl Utils {
    /// The names and the description of the list entry at `el`.
    pub fn parse_df_name(doc: &Document, el: usize, en_pattern: &str, desc_pattern: &str) -> (r:
        DevilFruitName)
        requires
            el < doc.nodes.len(),
        ensures
            (r.name@, r.en_name@, r.description@) == name_detail(
                text_runs(doc@, el as int),
                groups_of(en_pattern@, text_runs(doc@, el as int)),
                groups_of(desc_pattern@, text_runs(doc@, el as int)),
            ),
    {
        let runs = doc.text_runs(el);
        let en = find_groups(en_pattern, &runs);
        let desc = find_groups(desc_pattern, &runs);
        name_from_matches(&runs, &en, &desc)
    }

    /// The fruits of the kind `kind`, by path, `link` marking the first links.
    pub fn parse_kind(doc: &Document, link: &Vec<bool>, kind: DfSubType) -> (r: Result<
        Vec<(String, DfSubType)>,
        Error,
    >)
        ensures
            match entries_of_kind(doc.html@, doc@, link@, kind) {
                Ok(v) => r matches Ok(e) && entry_views(e@) == v,
                Err(msg) => is_structure_error(r, msg),
            },
    {
        let anchor = doc.marks(kind.id_for_fruit_list().as_str())?;
        let sibs = anchor_section(doc, &anchor)?;
        let lists = keep_named(doc, &sibs, "ul");
        let items = if lists.len() > 0 {
            doc.child_elements(lists[0])
        } else {
            Vec::new()
        };
        let paths = collect_paths(doc, link, &items)?;
        let ghost all = paths.deep_view();
        let mut out: Vec<(String, DfSubType)> = Vec::new();
        let mut j: usize = 0;
        while j < paths.len()
            invariant
                j <= paths.len(),
                all == paths.deep_view(),
                out.len() == j,
                forall|k: int| 0 <= k < j ==> (#[trigger] out[k]).0@ == all[k] && out[k].1 == kind,
            decreases paths.len() - j,
        {
            out.push((paths[j].clone(), kind));
            j += 1;
        }
        assert(entry_views(out@) =~= entries_for(all, kind));
        Ok(out)
    }

    /// The kinds of the Zoan fruits of a page, by path, `link` marking the first links.
    pub fn parse_sub_type_marked(doc: &Document, link: &Vec<bool>) -> (r: Result<
        Vec<(String, DfSubType)>,
        Error,
    >)
        ensures
            match sub_type_entries(doc.html@, doc@, link@) {
                Ok(v) => r matches Ok(e) && entry_views(e@) == v,
                Err(msg) => is_structure_error(r, msg),
            },
    {
        let mut ancient = Utils::parse_kind(doc, link, DfSubType::AncientZoan)?;
        let mut mythical = Utils::parse_kind(doc, link, DfSubType::MythicalZoan)?;
        let ghost a = entry_views(ancient@);
        let ghost m = entry_views(mythical@);
        ancient.append(&mut mythical);
        assert(entry_views(ancient@) =~= a + m);
        Ok(ancient)
    }

    /// The kinds of the Zoan fruits of a page, by path.
    pub fn parse_sub_type(doc: &Document) -> (r: Result<Vec<(String, DfSubType)>, Error>)
        ensures
            match marks_of(doc.html@, FIRST_LINK_SELECTOR@) {
                Err(e) => is_structure_error(r, e),
                Ok(link) => match sub_type_entries(doc.html@, doc@, link) {
                    Ok(v) => r matches Ok(e) && entry_views(e@) == v,
                    Err(msg) => is_structure_error(r, msg),
                },
            },
    {
        let link = doc.marks(FIRST_LINK_SELECTOR)?;
        Utils::parse_sub_type_marked(doc, &link)
    }
}

/// The list entries that follow the first `dl` of the nodes at `sibs` whose second following
/// sibling is a `ul`; a structure error if that sibling is no element.
pub fn items_after_dl(doc: &Document, sibs: &Vec<usize>) -> (r: Result<Vec<usize>, Error>)
    requires
        all_within(sibs@, doc@),
    ensures
        match list_after_dl(doc@, sibs@) {
            Ok(items) => r matches Ok(v) && v@ == items && all_within(v@, doc@),
            Err(msg) => is_structure_error(r, msg),
        },
{
    let mut j: usize = 0;
    assert(sibs@.skip(0) == sibs@);
    while j < sibs.len()
        invariant
            j <= sibs.len(),
            all_within(sibs@, doc@),
            list_after_dl(doc@, sibs@) == list_after_dl(doc@, sibs@.skip(j as int)),
        decreases sibs.len() - j,
    {
        let ghost rest = sibs@.skip(j as int);
        assert(rest[0] == sibs[j as int]);
        assert(rest.drop_first() == sibs@.skip(j + 1));
        if same_text(doc.nodes[sibs[j]].name.as_str(), "dl") {
            let after = doc.following_siblings(sibs[j]);
            if after.len() >= 2 {
                if !doc.nodes[after[1]].is_element() {
                    return Err(invalid_structure("invalid element node"));
                }
                if same_text(doc.nodes[after[1]].name.as_str(), "ul") {
                    return Ok(doc.child_elements(after[1]));
                }
            }
        }
        j += 1;
    }
    Ok(Vec::new())
}

/// Reads the fruits of one class off the page that lists them.
pub trait DfTypeParser {
    /// The fruits that the parser reads off the page with the text `html` and the nodes
    /// `nodes`, or the message of the structure error that it gives.
    spec fn fruits(&self, html: Seq<char>, nodes: Seq<NodeView>) -> Result<
        Seq<DevilFruitView>,
        Seq<char>,
    >;

    fn parse(&self, doc: &Document) -> (r: Result<Vec<DevilFruit>, Error>)
        ensures
            is_fruits(r, self.fruits(doc.html@, doc@)),
    ;
}

/// Reads the canon Zoan fruits: the entries of every list between the anchor of the list
/// and the heading that ends it.
pub struct CanonZoanParser;

/// Reads the canon Paramecia fruits: the entries of the first list after a `dl`.
pub struct CanonParameciaParser;

/// Reads the canon Logia fruits: the entries of the first list after a `dl`.
pub struct CanonLogiaParser;

impl DfTypeParser for CanonZoanParser {
    open spec fn fruits(&self, html: Seq<char>, nodes: Seq<NodeView>) -> Result<
        Seq<DevilFruitView>,
        Seq<char>,
    > {
        canon_zoan_fruits(html, nodes)
    }

    fn parse(&self, doc: &Document) -> (r: Result<Vec<DevilFruit>, Error>) {
        let link = doc.marks(FIRST_LINK_SELECTOR)?;
        let anchor = doc.marks(DfType::Zoan.id_for_fruit_list().as_str())?;
        let sibs = anchor_section(doc, &anchor)?;
        let kept = take_before_heading(doc, &sibs);
        let lists = keep_named(doc, &kept, "ul");
        let items = child_elements_all(doc, &lists);
        let subs = Utils::parse_sub_type_marked(doc, &link)?;
        collect_fruits(
            doc,
            &link,
            &items,
            DfType::Zoan,
            &subs,
            EN_NAME_PATTERN,
            ZOAN_DESCRIPTION_PATTERN,
        )
    }
}

/// Reads the canon fruits of the class `df_type` off a page that lists them after a `dl`.
pub fn parse_canon_list(doc: &Document, df_type: DfType) -> (r: Result<Vec<DevilFruit>, Error>)
    ensures
        is_fruits(r, canon_list_fruits(doc.html@, doc@, df_type)),
{
    let link = doc.marks(FIRST_LINK_SELECTOR)?;
    let anchor = doc.marks(df_type.id_for_fruit_list().as_str())?;
    let sibs = anchor_section(doc, &anchor)?;
    let items = items_after_dl(doc, &sibs)?;
    let subs: Vec<(String, DfSubType)> = Vec::new();
    assert(entry_views(subs@) =~= Seq::empty());
    collect_fruits(doc, &link, &items, df_type, &subs, EN_NAME_PATTERN, LIST_DESCRIPTION_PATTERN)
}

impl DfTypeParser for CanonParameciaParser {
    open spec fn fruits(&self, html: Seq<char>, nodes: Seq<NodeView>) -> Result<
        Seq<DevilFruitView>,
        Seq<char>,
    > {
        canon_list_fruits(html, nodes, DfType::Paramecia)
    }

    fn parse(&self, doc: &Document) -> (r: Result<Vec<DevilFruit>, Error>) {
        parse_canon_list(doc, DfType::Paramecia)
    }
}

impl DfTypeParser for CanonLogiaParser {
    open spec fn fruits(&self, html: Seq<char>, nodes: Seq<NodeView>) -> Result<
        Seq<DevilFruitView>,
        Seq<char>,
    > {
        canon_list_fruits(html, nodes, DfType::Logia)
    }

    fn parse(&self, doc: &Document) -> (r: Result<Vec<DevilFruit>, Error>) {
        parse_canon_list(doc, DfType::Logia)
    }
}

/// The fruits that the parser for the canon fruits of `df_type` reads off a page.
pub open spec fn canon_fruits(df_type: DfType, html: Seq<char>, nodes: Seq<NodeView>) -> Result<
    Seq<DevilFruitView>,
    Seq<char>,
> {
    match df_type {
        DfType::Zoan => canon_zoan_fruits(html, nodes),
        _ => canon_list_fruits(html, nodes, df_type),
    }
}

/// The parser for the canon fruits of one class.
#[derive(Debug, Clone, Copy, PartialEq, Eq, Structural)]
pub enum CanonParser {
    Zoan,
    Logia,
    Paramecia,
}

impl CanonParser {
    /// The class whose fruits the parser reads.
    pub open spec fn class(self) -> DfType {
        match self {
            CanonParser::Zoan => DfType::Zoan,
            CanonParser::Logia => DfType::Logia,
            CanonParser::Paramecia => DfType::Paramecia,
        }
    }
}

impl DfTypeParser for CanonParser {
    open spec fn fruits(&self, html: Seq<char>, nodes: Seq<NodeView>) -> Result<
        Seq<DevilFruitView>,
        Seq<char>,
    > {
        canon_fruits(self.class(), html, nodes)
    }

    fn parse(&self, doc: &Document) -> (r: Result<Vec<DevilFruit>, Error>) {
        match self {
            CanonParser::Zoan => CanonZoanParser.parse(doc),
            CanonParser::Logia => CanonLogiaParser.parse(doc),
            CanonParser::Paramecia => CanonParameciaParser.parse(doc),
        }
    }
}

/// The parser for the fruits of the class `df_type`. There is one for the canon fruits of
/// each class that has a page.
pub fn get_parser(df_type: &DfType, canon: bool) -> (r: CanonParser)
    requires
        canon,
        *df_type != DfType::Undetermined,
    ensures
        r.class() == *df_type,
{
    match df_type {
        DfType::Zoan => CanonParser::Zoan,
        DfType::Logia => CanonParser::Logia,
        _ => CanonParser::Paramecia,
    }
}

} // verus!
