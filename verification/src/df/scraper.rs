use super::models::{DevilFruit, DevilFruitView, DfTypeInfo, DfTypeInfoView};
use super::parser::{canon_fruits, fruit_views, get_parser, is_fruits, DfTypeParser};
use super::types::DfType;
use crate::dom::{
    marks_of, document_nodes, selected_all, selected_in, text_runs, Document, NodeView,
};
use crate::fetcher::{
    cache_after, calls_for, lemma_store_asked_in_a_row, may_give_from, same_answers, store_asked,
    FetchHtml, HtmlFetcher,
};
use crate::pipeline::{
    cache_in_turn, calls_in_turn, fetched_in_turn, is_stable_order, sort_by_path,
    sorted_by_path,
};
use crate::pirates::scraper::first_or_default;
use crate::text::{
    concat, decimal, decimal_string, parse_u32, parsed_u32, same_text, trim, trimmed,
};
use crate::types::{invalid_structure, Error, UrlTyped};
use crate::utils::{
    first_sibling_text, get_first_parents_sibling_text, is_structure_error, parse_picture_url,
    picture_urls_of, text_result,
};
use vstd::prelude::*;

verus! {

/// The rows of the table of classes that give a class each.
pub const TYPE_ROW_SELECTOR: &'static str =
    "table.wikitable:nth-of-type(1) tr:nth-of-type(n+2):nth-of-type(-n+5)";

/// The cells of a row.
pub const CELL_SELECTOR: &'static str = "td";

/// The anchor of what the page says of the Paramecia class.
pub const PARAMECIA_ANCHOR: &'static str = "#Paramecia";

/// The anchor of what the page says of the Zoan class.
pub const ZOAN_ANCHOR: &'static str = "#Zoan";

/// The anchor of what the page says of the Logia class.
pub const LOGIA_ANCHOR: &'static str = "#Logia";

/// The text that follows the anchor `anchor` on the page with the text `html` and the
/// nodes `nodes`.
pub open spec fn anchored_text(html: Seq<char>, nodes: Seq<NodeView>, anchor: Seq<char>) -> Result<
    Seq<char>,
    Seq<char>,
> {
    match marks_of(html, anchor) {
        Err(e) => Err(e),
        Ok(m) => first_sibling_text(nodes, m),
    }
}

/// What a page says of the classes Paramecia, Zoan and Logia, in this order.
pub ghost struct ClassTexts {
    pub paramecia: Seq<char>,
    pub zoan: Seq<char>,
    pub logia: Seq<char>,
}

impl ClassTexts {
    /// What is said of the class `df_type`, trimmed; nothing of a class without a text.
    pub open spec fn of(self, df_type: DfType) -> Seq<char> {
        match df_type {
            DfType::Paramecia => trimmed(self.paramecia),
            DfType::Zoan => trimmed(self.zoan),
            DfType::Logia => trimmed(self.logia),
            DfType::Undetermined => Seq::empty(),
        }
    }
}

/// The first run of text of the cell at `cell`, trimmed; nothing if the cell holds no text.
pub open spec fn cell_text(nodes: Seq<NodeView>, cell: int) -> Option<Seq<char>> {
    let runs = text_runs(nodes, cell);
    if runs.len() > 0 {
        Some(trimmed(runs[0]))
    } else {
        None
    }
}

/// The number in the cell at `cell`.
pub open spec fn cell_count(nodes: Seq<NodeView>, cell: int) -> Result<u32, Seq<char>> {
    match cell_text(nodes, cell) {
        None => Err("Missing cell text"@),
        Some(t) => match parsed_u32(t) {
            None => Err("Invalid count: "@ + t),
            Some(n) => Ok(n),
        },
    }
}

/// What the table row at `row` says of a class, `td` marking the cells of the page: the
/// first three cells give the class, the number of its canon fruits and the number of the
/// others.
pub open spec fn type_info_at(nodes: Seq<NodeView>, td: Seq<bool>, texts: ClassTexts, row: int) -> Result<
    DfTypeInfoView,
    Seq<char>,
> {
    let cells = selected_in(nodes, td, row);
    if cells.len() < 3 {
        Err("Expected at least 3 cells, found "@ + decimal(cells.len()))
    } else {
        match cell_text(nodes, cells[0] as int) {
            None => Err("Missing cell text"@),
            Some(name) => match cell_count(nodes, cells[1] as int) {
                Err(e) => Err(e),
                Ok(cannon_count) => match cell_count(nodes, cells[2] as int) {
                    Err(e) => Err(e),
                    Ok(non_cannon_count) => match DfType::named(name) {
                        None => Err("Unknown DfType: "@ + name),
                        Some(df_type) => Ok(
                            DfTypeInfoView {
                                df_type,
                                cannon_count,
                                non_cannon_count,
                                description: texts.of(df_type),
                            },
                        ),
                    },
                },
            },
        }
    }
}

/// What the table rows at `rows` say, row after row; the error of the first row that
/// cannot be read.
pub open spec fn type_infos_at(
    nodes: Seq<NodeView>,
    td: Seq<bool>,
    texts: ClassTexts,
    rows: Seq<usize>,
) -> Result<Seq<DfTypeInfoView>, Seq<char>>
    decreases rows.len(),
{
    if rows.len() == 0 {
        Ok(Seq::empty())
    } else {
        match type_infos_at(nodes, td, texts, rows.drop_last()) {
            Err(e) => Err(e),
            Ok(v) => match type_info_at(nodes, td, texts, rows.last() as int) {
                Err(e) => Err(e),
                Ok(info) => Ok(v.push(info)),
            },
        }
    }
}

/// What the page with the text `html` and the nodes `nodes` says of the classes of devil
/// fruit.
pub open spec fn type_infos_of(html: Seq<char>, nodes: Seq<NodeView>) -> Result<
    Seq<DfTypeInfoView>,
    Seq<char>,
> {
    match anchored_text(html, nodes, PARAMECIA_ANCHOR@) {
        Err(e) => Err(e),
        Ok(paramecia) => match anchored_text(html, nodes, ZOAN_ANCHOR@) {
            Err(e) => Err(e),
            Ok(zoan) => match anchored_text(html, nodes, LOGIA_ANCHOR@) {
                Err(e) => Err(e),
                Ok(logia) => match marks_of(html, TYPE_ROW_SELECTOR@) {
                    Err(e) => Err(e),
                    Ok(row) => match marks_of(html, CELL_SELECTOR@) {
                        Err(e) => Err(e),
                        Ok(td) => type_infos_at(
                            nodes,
                            td,
                            ClassTexts { paramecia, zoan, logia },
                            selected_all(nodes, row),
                        ),
                    },
                },
            },
        }
    }
}

/// The records `infos`, as values of specifications.
pub open spec fn info_views(infos: Seq<DfTypeInfo>) -> Seq<DfTypeInfoView> {
    infos.map_values(|i: DfTypeInfo| i@)
}

/// `r` is the list of records that `expected` holds, or the structure error whose message
/// it holds.
pub open spec fn is_infos(
    r: Result<Vec<DfTypeInfo>, Error>,
    expected: Result<Seq<DfTypeInfoView>, Seq<char>>,
) -> bool {
    match expected {
        Ok(v) => r matches Ok(i) && info_views(i@) == v,
        Err(msg) => is_structure_error(r, msg),
    }
}

/// The first run of text of the cell at `cell`, trimmed.
pub fn read_cell(doc: &Document, cell: usize) -> (r: Option<String>)
    requires
        cell < doc.nodes.len(),
    ensures
        match cell_text(doc@, cell as int) {
            Some(t) => r matches Some(v) && v@ == t,
            None => r is None,
        },
{
    let runs = doc.text_runs(cell);
    if runs.len() > 0 {
        Some(trim(runs[0].as_str()))
    } else {
        None
    }
}

/// The number in the cell at `cell`.
pub fn read_count(doc: &Document, cell: usize) -> (r: Result<u32, Error>)
    requires
        cell < doc.nodes.len(),
    ensures
        match cell_count(doc@, cell as int) {
            Ok(n) => r == Ok::<u32, Error>(n),
            Err(msg) => is_structure_error(r, msg),
        },
{
    match read_cell(doc, cell) {
        None => Err(invalid_structure("Missing cell text")),
        Some(t) => match parse_u32(t.as_str()) {
            None => Err(Error::InvalidStructure(concat("Invalid count: ", t.as_str()))),
            Some(n) => Ok(n),
        },
    }
}

/// What the table row at `row` says of a class. `paramecia`, `zoan` and `logia` are what
/// the page says of these classes.
pub fn read_type_row(
    doc: &Document,
    td: &Vec<bool>,
    paramecia: &str,
    zoan: &str,
    logia: &str,
    row: usize,
) -> (r: Result<DfTypeInfo, Error>)
    requires
        row < doc.nodes.len(),
    ensures
        match type_info_at(
            doc@,
            td@,
            ClassTexts { paramecia: paramecia@, zoan: zoan@, logia: logia@ },
            row as int,
        ) {
            Ok(v) => r matches Ok(i) && i@ == v,
            Err(msg) => is_structure_error(r, msg),
        },
{
    let cells = doc.select_in(td, row);
    if cells.len() < 3 {
        return Err(
            Error::InvalidStructure(
                concat(
                    "Expected at least 3 cells, found ",
                    decimal_string(cells.len() as u64).as_str(),
                ),
            ),
        );
    }
    let name = match read_cell(doc, cells[0]) {
        None => {
            return Err(invalid_structure("Missing cell text"));
        },
        Some(t) => t,
    };
    let cannon_count = read_count(doc, cells[1])?;
    let non_cannon_count = read_count(doc, cells[2])?;
    let df_type = match DfType::from_name(name.as_str()) {
        None => {
            return Err(Error::InvalidStructure(concat("Unknown DfType: ", name.as_str())));
        },
        Some(t) => t,
    };
    let description = match df_type {
        DfType::Paramecia => trim(paramecia),
        DfType::Zoan => trim(zoan),
        DfType::Logia => trim(logia),
        DfType::Undetermined => String::new(),
    };
    Ok(DfTypeInfo::new(df_type, cannon_count, non_cannon_count, description))
}

proof fn lemma_infos_fail(
    nodes: Seq<NodeView>,
    td: Seq<bool>,
    texts: ClassTexts,
    rows: Seq<usize>,
    n: int,
)
    requires
        0 <= n <= rows.len(),
        type_infos_at(nodes, td, texts, rows.take(n)) is Err,
    ensures
        type_infos_at(nodes, td, texts, rows) == type_infos_at(nodes, td, texts, rows.take(n)),
    decreases rows.len() - n,
{
    if n < rows.len() {
        assert(rows.take(n + 1).drop_last() == rows.take(n));
        lemma_infos_fail(nodes, td, texts, rows, n + 1);
    } else {
        assert(rows.take(n) == rows);
    }
}

/// What a parsed page says of the classes of devil fruit: for each row of its table of
/// classes the class, its two counts and what the page says of the class.
pub fn type_infos_from_document(doc: &Document) -> (r: Result<Vec<DfTypeInfo>, Error>)
    ensures
        is_infos(r, type_infos_of(doc.html@, doc@)),
{
    let paramecia = get_first_parents_sibling_text(doc, PARAMECIA_ANCHOR)?;
    let zoan = get_first_parents_sibling_text(doc, ZOAN_ANCHOR)?;
    let logia = get_first_parents_sibling_text(doc, LOGIA_ANCHOR)?;
    let row = doc.marks(TYPE_ROW_SELECTOR)?;
    let td = doc.marks(CELL_SELECTOR)?;
    let rows = doc.select_all(&row);
    let ghost texts = ClassTexts { paramecia: paramecia@, zoan: zoan@, logia: logia@ };
    let mut out: Vec<DfTypeInfo> = Vec::new();
    let mut j: usize = 0;
    assert(info_views(out@) =~= Seq::empty());
    assert(type_infos_of(doc.html@, doc@) == type_infos_at(doc@, td@, texts, rows@));
    while j < rows.len()
        invariant
            j <= rows.len(),
            forall|k: int| 0 <= k < rows.len() ==> #[trigger] rows[k] < doc.nodes.len(),
            texts == (ClassTexts { paramecia: paramecia@, zoan: zoan@, logia: logia@ }),
            type_infos_of(doc.html@, doc@) == type_infos_at(doc@, td@, texts, rows@),
            type_infos_at(doc@, td@, texts, rows@.take(j as int)) == Ok::<
                Seq<DfTypeInfoView>,
                Seq<char>,
            >(info_views(out@)),
        decreases rows.len() - j,
    {
        assert(rows@.take(j + 1).drop_last() == rows@.take(j as int));
        match read_type_row(
            doc,
            &td,
            paramecia.as_str(),
            zoan.as_str(),
            logia.as_str(),
            rows[j],
        ) {
            Ok(info) => {
                let ghost before = out@;
                out.push(info);
                assert(info_views(out@) =~= info_views(before).push(info@));
            },
            Err(e) => {
                proof {
                    lemma_infos_fail(doc@, td@, texts, rows@, j + 1);
                }
                return Err(e);
            },
        }
        j += 1;
    }
    assert(rows@.take(rows.len() as int) == rows@);
    Ok(out)
}

/// What the page `html` says of the classes of devil fruit.
pub fn parse_dftype_info(html: &str) -> (r: Result<Vec<DfTypeInfo>, Error>)
    ensures
        is_infos(r, type_infos_of(html@, document_nodes(html@))),
{
    let doc = Document::parse(html)?;
    type_infos_from_document(&doc)
}

/// Those of `classes` that have a page of their own, in order.
pub open spec fn with_pages(classes: Seq<DfType>) -> Seq<DfType>
    decreases classes.len(),
{
    if classes.len() == 0 {
        Seq::empty()
    } else if classes.last().path().len() > 0 {
        with_pages(classes.drop_last()).push(classes.last())
    } else {
        with_pages(classes.drop_last())
    }
}

/// The classes whose fruits are listed on a page of their own, in the order in which the
/// pages are read: every class but the undetermined one.
pub fn listed_classes() -> (r: Vec<DfType>)
    ensures
        r@ == seq![DfType::Logia, DfType::Zoan, DfType::Paramecia],
        forall|i: int| 0 <= i < r.len() ==> r[i] != DfType::Undetermined,
{
    let all = DfType::all();
    let mut out: Vec<DfType> = Vec::new();
    let mut i: usize = 0;
    while i < all.len()
        invariant
            i <= all.len(),
            out@ == with_pages(all@.take(i as int)),
        decreases all.len() - i,
    {
        assert(all@.take(i + 1).drop_last() == all@.take(i as int));
        if !all[i].get_path().as_str().is_empty() {
            out.push(all[i]);
        }
        i += 1;
    }
    proof {
        let classes = seq![DfType::Logia, DfType::Zoan, DfType::Paramecia, DfType::Undetermined];
        assert(all@.take(all.len() as int) == classes);
        reveal_with_fuel(with_pages, 5);
        reveal_strlit("/wiki/Logia");
        reveal_strlit("/wiki/Zoan");
        reveal_strlit("/wiki/Paramecia");
        assert(classes.drop_last() =~= seq![DfType::Logia, DfType::Zoan, DfType::Paramecia]);
        assert(classes.drop_last().drop_last() =~= seq![DfType::Logia, DfType::Zoan]);
        assert(classes.drop_last().drop_last().drop_last() =~= seq![DfType::Logia]);
        assert(classes.drop_last().drop_last().drop_last().drop_last() =~= Seq::<DfType>::empty());
        assert(with_pages(classes) =~= seq![DfType::Logia, DfType::Zoan, DfType::Paramecia]);
    }
    out
}

/// The canon fruits that the page `html` of the class `df_type` lists.
pub fn parse_fruit_page(df_type: DfType, html: &str) -> (r: Result<Vec<DevilFruit>, Error>)
    requires
        df_type != DfType::Undetermined,
    ensures
        is_fruits(r, canon_fruits(df_type, html@, document_nodes(html@))),
{
    let doc = Document::parse(html)?;
    get_parser(&df_type, true).parse(&doc)
}

/// The picture of the page with the text `html` and the nodes `nodes`: the first picture
/// of its infobox, or the empty text if it shows none.
pub open spec fn picture_of(html: Seq<char>, nodes: Seq<NodeView>) -> Result<Seq<char>, Seq<char>> {
    match picture_urls_of(html, nodes) {
        Err(e) => Err(e),
        Ok(pics) => Ok(
            if pics.len() > 0 {
                pics[0]
            } else {
                Seq::empty()
            },
        ),
    }
}

/// The picture of the page `html`.
pub fn parse_picture(html: &str) -> (r: Result<String, Error>)
    ensures
        text_result(r, picture_of(html@, document_nodes(html@))),
{
    let doc = Document::parse(html)?;
    let pics = parse_picture_url(&doc)?;
    Ok(first_or_default(&pics))
}

/// The first position from `from` on at which `table` holds a fruit with the path `path`.
pub open spec fn slot_from(table: Seq<DevilFruitView>, path: Seq<char>, from: int) -> Option<int>
    decreases table.len() - from,
{
    if from < 0 || from >= table.len() {
        None
    } else if table[from].df_url == path {
        Some(from)
    } else {
        slot_from(table, path, from + 1)
    }
}

/// The table `table` with the fruit `fruit` in it: in the place of the fruit with the same
/// path, if there is one, else at the end.
pub open spec fn with_fruit(table: Seq<DevilFruitView>, fruit: DevilFruitView) -> Seq<
    DevilFruitView,
> {
    match slot_from(table, fruit.df_url, 0) {
        Some(i) => table.update(i, fruit),
        None => table.push(fruit),
    }
}

/// The table `table` with all of `fruits` in it, one after another.
pub open spec fn with_fruits(table: Seq<DevilFruitView>, fruits: Seq<DevilFruitView>) -> Seq<
    DevilFruitView,
>
    decreases fruits.len(),
{
    if fruits.len() == 0 {
        table
    } else {
        with_fruit(with_fruits(table, fruits.drop_last()), fruits.last())
    }
}

/// The table `table` with `picture` as the picture of the fruit with the path `path`. A
/// table without such a fruit stays as it is.
pub open spec fn with_picture(table: Seq<DevilFruitView>, path: Seq<char>, picture: Seq<char>) -> Seq<
    DevilFruitView,
> {
    match slot_from(table, path, 0) {
        Some(i) => table.update(i, DevilFruitView { pic_url: picture, ..table[i] }),
        None => table,
    }
}

/// What the picture task `result` brought: the path it was started for and, if it
/// succeeded, the picture.
pub open spec fn picture_view(result: (String, Result<String, Error>)) -> (
    Seq<char>,
    Option<Seq<char>>,
) {
    (
        result.0@,
        match result.1 {
            Ok(p) => Some(p@),
            Err(_) => None,
        },
    )
}

/// What the picture tasks `results` brought.
pub open spec fn picture_views(results: Seq<(String, Result<String, Error>)>) -> Seq<
    (Seq<char>, Option<Seq<char>>),
> {
    results.map_values(|r: (String, Result<String, Error>)| picture_view(r))
}

/// The table `table` with the pictures that the tasks `results` brought, taken in order. A
/// task that failed changes nothing.
pub open spec fn with_pictures(
    table: Seq<DevilFruitView>,
    results: Seq<(Seq<char>, Option<Seq<char>>)>,
) -> Seq<DevilFruitView>
    decreases results.len(),
{
    if results.len() == 0 {
        table
    } else {
        let before = with_pictures(table, results.drop_last());
        match results.last().1 {
            Some(picture) => with_picture(before, results.last().0, picture),
            None => before,
        }
    }
}

/// No two fruits of `table` have the same path.
pub open spec fn distinct_paths(table: Seq<DevilFruitView>) -> bool {
    forall|i: int, j: int| 0 <= i < j < table.len() ==> table[i].df_url != table[j].df_url
}

proof fn lemma_slot(table: Seq<DevilFruitView>, path: Seq<char>, from: int)
    requires
        0 <= from,
    ensures
        match slot_from(table, path, from) {
            Some(i) => from <= i < table.len() && table[i].df_url == path,
            None => forall|k: int| from <= k < table.len() ==> table[k].df_url != path,
        },
    decreases table.len() - from,
{
    if from < table.len() && table[from].df_url != path {
        lemma_slot(table, path, from + 1);
    }
}

/// The fruits found so far, by path: no two of them have the same path.
#[derive(Debug)]
pub struct FruitTable {
    pub fruits: Vec<DevilFruit>,
}

impl View for FruitTable {
    type V = Seq<DevilFruitView>;

    open spec fn view(&self) -> Seq<DevilFruitView> {
        fruit_views(self.fruits@)
    }
}

impl FruitTable {
    /// The table is well formed: no two of its fruits have the same path.
    pub open spec fn wf(&self) -> bool {
        distinct_paths(self@)
    }

    /// A table without fruits.
    pub fn new() -> (r: FruitTable)
        ensures
            r.wf(),
            r@ == Seq::<DevilFruitView>::empty(),
    {
        let r = FruitTable { fruits: Vec::new() };
        assert(r@ =~= Seq::empty());
        r
    }

    /// The position of the fruit with the path `path`.
    pub fn position(&self, path: &str) -> (r: Option<usize>)
        ensures
            match slot_from(self@, path@, 0) {
                Some(i) => r == Some(i as usize) && i < self.fruits.len(),
                None => r is None,
            },
    {
        let mut i: usize = 0;
        while i < self.fruits.len()
            invariant
                i <= self.fruits.len(),
                slot_from(self@, path@, 0) == slot_from(self@, path@, i as int),
            decreases self.fruits.len() - i,
        {
            if same_text(self.fruits[i].df_url.as_str(), path) {
                return Some(i);
            }
            i += 1;
        }
        None
    }

    /// Puts `fruit` into the table, in the place of the fruit with the same path if there
    /// is one.
    pub fn insert(&mut self, fruit: DevilFruit)
        requires
            old(self).wf(),
        ensures
            final(self).wf(),
            final(self)@ == with_fruit(old(self)@, fruit@),
    {
        let ghost before = self@;
        proof {
            lemma_slot(before, fruit@.df_url, 0);
        }
        match self.position(fruit.df_url.as_str()) {
            Some(i) => {
                let _ = self.fruits.remove(i);
                self.fruits.insert(i, fruit);
                assert(self@ =~= before.update(i as int, fruit@));
            },
            None => {
                self.fruits.push(fruit);
                assert(self@ =~= before.push(fruit@));
            },
        }
    }

    /// Puts all of `fruits` into the table, one after another.
    pub fn insert_all(&mut self, fruits: Vec<DevilFruit>)
        requires
            old(self).wf(),
        ensures
            final(self).wf(),
            final(self)@ == with_fruits(old(self)@, fruit_views(fruits@)),
    {
        let ghost start = self@;
        let ghost whole = fruits@;
        let ghost all = fruit_views(fruits@);
        let mut rest = fruits;
        let ghost mut done: int = 0;
        assert(all.take(0) =~= Seq::empty());
        assert(whole.skip(0) =~= whole);
        while rest.len() > 0
            invariant
                self.wf(),
                0 <= done <= whole.len(),
                all == fruit_views(whole),
                rest@ == whole.skip(done),
                self@ == with_fruits(start, all.take(done)),
            decreases rest.len(),
        {
            let fruit = rest.remove(0);
            assert(rest@ =~= whole.skip(done + 1));
            assert(fruit == whole[done]);
            assert(fruit@ == all[done]);
            assert(all.take(done + 1).drop_last() =~= all.take(done));
            self.insert(fruit);
            proof {
                done = done + 1;
            }
        }
        assert(all.take(done) =~= all);
    }

    /// Sets the picture of the fruit with the path `path`. A table without such a fruit
    /// stays as it is.
    pub fn set_picture(&mut self, path: &str, picture: String)
        requires
            old(self).wf(),
        ensures
            final(self).wf(),
            final(self)@ == with_picture(old(self)@, path@, picture@),
    {
        let ghost before = self@;
        proof {
            lemma_slot(before, path@, 0);
        }
        match self.position(path) {
            Some(i) => {
                let mut fruit = self.fruits.remove(i);
                fruit.pic_url = picture;
                self.fruits.insert(i, fruit);
                assert(self@ =~= before.update(
                    i as int,
                    DevilFruitView { pic_url: picture@, ..before[i as int] },
                ));
            },
            None => {},
        }
    }

    /// Takes in what the picture tasks brought, in the order of `results`. A task that
    /// failed leaves the picture of its fruit as it was.
    pub fn apply_pictures(&mut self, results: Vec<(String, Result<String, Error>)>)
        requires
            old(self).wf(),
        ensures
            final(self).wf(),
            final(self)@ == with_pictures(old(self)@, picture_views(results@)),
    {
        let ghost start = self@;
        let ghost whole = results@;
        let ghost all = picture_views(results@);
        let mut rest = results;
        let ghost mut done: int = 0;
        assert(all.take(0) =~= Seq::empty());
        assert(whole.skip(0) =~= whole);
        while rest.len() > 0
            invariant
                self.wf(),
                0 <= done <= whole.len(),
                all == picture_views(whole),
                rest@ == whole.skip(done),
                self@ == with_pictures(start, all.take(done)),
            decreases rest.len(),
        {
            let result = rest.remove(0);
            assert(rest@ =~= whole.skip(done + 1));
            assert(result == whole[done]);
            assert(picture_view(result) == all[done]);
            assert(all.take(done + 1).drop_last() =~= all.take(done));
            match result.1 {
                Ok(picture) => {
                    self.set_picture(result.0.as_str(), picture);
                },
                Err(_) => {},
            }
            proof {
                done = done + 1;
            }
        }
        assert(all.take(done) =~= all);
    }

    /// The fruits of the table in ascending order of their paths.
    pub fn into_sorted(self) -> (r: Vec<DevilFruit>)
        ensures
            exists|origin: Seq<int>| is_stable_order(self.fruits@, r@, origin),
            r@.to_multiset() == self.fruits@.to_multiset(),
            r@.len() == self.fruits@.len(),
            sorted_by_path(r@),
    {
        sort_by_path(self.fruits)
    }
}

/// Pictures change nothing but pictures: whatever the picture tasks bring, the table holds
/// the same fruits in the same places afterwards, and each differs from what it was in its
/// picture at most.
pub proof fn lemma_pictures_keep_fruits(
    table: Seq<DevilFruitView>,
    results: Seq<(Seq<char>, Option<Seq<char>>)>,
)
    ensures
        with_pictures(table, results).len() == table.len(),
        forall|i: int|
            0 <= i < table.len() ==> #[trigger] with_pictures(table, results)[i] == (DevilFruitView {
                pic_url: with_pictures(table, results)[i].pic_url,
                ..table[i]
            }),
    decreases results.len(),
{
    if results.len() > 0 {
        lemma_pictures_keep_fruits(table, results.drop_last());
        let before = with_pictures(table, results.drop_last());
        lemma_slot(before, results.last().0, 0);
    }
}

/// A fruit whose picture tasks all failed is still in the table, with the picture it had.
pub proof fn lemma_failed_picture_leaves_fruit(
    table: Seq<DevilFruitView>,
    results: Seq<(Seq<char>, Option<Seq<char>>)>,
    i: int,
)
    requires
        0 <= i < table.len(),
        forall|k: int|
            0 <= k < results.len() && (#[trigger] results[k]).0 == table[i].df_url
                ==> results[k].1 is None,
    ensures
        with_pictures(table, results).len() == table.len(),
        with_pictures(table, results)[i] == table[i],
    decreases results.len(),
{
    lemma_pictures_keep_fruits(table, results);
    if results.len() > 0 {
        let shorter = results.drop_last();
        assert forall|k: int|
            0 <= k < shorter.len() && (#[trigger] shorter[k]).0 == table[i].df_url implies shorter[k].1 is None by {
            assert(shorter[k] == results[k]);
        }
        lemma_failed_picture_leaves_fruit(table, shorter, i);
        lemma_pictures_keep_fruits(table, shorter);
        let before = with_pictures(table, shorter);
        lemma_slot(before, results.last().0, 0);
        assert(results[results.len() - 1] == results.last());
    }
}

/// The page that tells of the classes of devil fruit.
pub const TYPE_INFO_PATH: &'static str = "/wiki/Devil_Fruit";

/// Why the pages of the classes could not be read.
pub ghost enum ReadFailure {
    /// A page could not be fetched: the failure of the fetch.
    Fetch(Error),
    /// A page did not have the expected shape: the message that says so.
    Structure(Seq<char>),
}

/// `e` is the error that goes with the failure `failure`.
pub open spec fn is_failure(e: Error, failure: ReadFailure) -> bool {
    match failure {
        ReadFailure::Fetch(x) => e == x,
        ReadFailure::Structure(msg) => e.is_structure(msg),
    }
}

/// The paths of the pages of the classes `classes`.
pub open spec fn class_paths(classes: Seq<DfType>) -> Seq<Seq<char>> {
    classes.map_values(|c: DfType| c.path())
}

/// The paths of the fruits `fruits`.
pub open spec fn fruit_paths(fruits: Seq<DevilFruitView>) -> Seq<Seq<char>> {
    fruits.map_values(|f: DevilFruitView| f.df_url)
}

/// The classes whose pages are read, in the order in which they are read.
pub open spec fn classes_read() -> Seq<DfType> {
    seq![DfType::Logia, DfType::Zoan, DfType::Paramecia]
}

/// The table of the fruits that the pages of the classes `classes` list, the fetches of the
/// pages having given `answers`: the fruits of each page are put into the table, page after
/// page. The first page that cannot be fetched or read gives the failure.
pub open spec fn tabled(classes: Seq<DfType>, answers: Seq<Result<String, Error>>) -> Result<
    Seq<DevilFruitView>,
    ReadFailure,
>
    decreases classes.len(),
{
    if classes.len() == 0 || answers.len() != classes.len() {
        Ok(Seq::empty())
    } else {
        match tabled(classes.drop_last(), answers.drop_last()) {
            Err(f) => Err(f),
            Ok(table) => match answers.last() {
                Err(e) => Err(ReadFailure::Fetch(e)),
                Ok(html) => match canon_fruits(classes.last(), html@, document_nodes(html@)) {
                    Err(msg) => Err(ReadFailure::Structure(msg)),
                    Ok(fruits) => Ok(with_fruits(table, fruits)),
                },
            },
        }
    }
}

/// The paths of the fruits that the pages of the classes `classes` list, page after page, a
/// path as often as it is listed.
pub open spec fn listed_paths(classes: Seq<DfType>, answers: Seq<Result<String, Error>>) -> Seq<
    Seq<char>,
>
    decreases classes.len(),
{
    if classes.len() == 0 || answers.len() != classes.len() {
        Seq::empty()
    } else {
        listed_paths(classes.drop_last(), answers.drop_last()) + match answers.last() {
            Ok(html) => match canon_fruits(classes.last(), html@, document_nodes(html@)) {
                Ok(fruits) => fruit_paths(fruits),
                Err(_) => Seq::empty(),
            },
            Err(_) => Seq::empty(),
        }
    }
}

/// `result` is what the task for the picture of the page at `path` may bring: the store
/// `client` is asked for the page under `base_url`, and the picture is read off what it
/// hands out.
pub open spec fn picture_fetched<C: FetchHtml>(
    client: C,
    base_url: Seq<char>,
    path: Seq<char>,
    result: Result<String, Error>,
) -> bool {
    exists|answer: Result<String, Error>|
        #![trigger client.answers(base_url + path, answer)]
        client.answers(base_url + path, answer) && match answer {
            Ok(html) => text_result(result, picture_of(html@, document_nodes(html@))),
            Err(e) => result == Err::<String, Error>(e),
        }
}

/// `results` is what the picture tasks for the pages at `paths` may bring, in the order of
/// `paths`.
pub open spec fn pictures_fetched<C: FetchHtml>(
    client: C,
    base_url: Seq<char>,
    paths: Seq<Seq<char>>,
    results: Seq<(String, Result<String, Error>)>,
) -> bool {
    results.len() == paths.len() && forall|i: int|
        0 <= i < paths.len() ==> (#[trigger] results[i]).0@ == paths[i] && picture_fetched(
            client,
            base_url,
            paths[i],
            results[i].1,
        )
}

/// The addresses made of `base_url` and each of `paths`.
pub open spec fn addresses(base_url: Seq<char>, paths: Seq<Seq<char>>) -> Seq<Seq<char>> {
    paths.map_values(|p: Seq<char>| base_url + p)
}

/// `answers` is what the fetches of the pages of the first classes gave, one for each page
/// that was fetched, with the fetcher `before`, which is `after` then: the store was asked
/// for the pages that the cache did not hold.
pub open spec fn classes_fetched<C: FetchHtml>(
    before: HtmlFetcher<C>,
    answers: Seq<Result<String, Error>>,
    after: HtmlFetcher<C>,
) -> bool {
    let paths = class_paths(classes_read().take(answers.len() as int));
    &&& answers.len() <= classes_read().len()
    &&& after.base_url == before.base_url
    &&& fetched_in_turn(before.client, before.base_url@, before.cache@, paths, answers)
    &&& after.cache@ == cache_in_turn(before.cache@, paths, answers)
    &&& store_asked(
        before.client,
        calls_in_turn(before.base_url@, before.cache@, paths, answers),
        after.client,
    )
}

/// Reads what the wiki says of devil fruits.
pub trait DfScrapable: Sized {
    /// `r` is something that `get_dftype_info` may give, `after` being the scraper then.
    open spec fn gives_infos(&self, r: Result<Vec<DfTypeInfo>, Error>, after: Self) -> bool {
        true
    }

    /// `r` is something that `get_df_list` may give, `after` being the scraper then.
    open spec fn gives_list(&self, r: Result<Vec<DevilFruit>, Error>, after: Self) -> bool {
        true
    }

    /// What the wiki says of the classes of devil fruit.
    fn get_dftype_info(&mut self) -> (r: Result<Vec<DfTypeInfo>, Error>)
        ensures
            old(self).gives_infos(r, *final(self)),
    ;

    /// The canon devil fruits, each with its picture, in ascending order of their paths.
    fn get_df_list(&mut self) -> (r: Result<Vec<DevilFruit>, Error>)
        ensures
            old(self).gives_list(r, *final(self)),
    ;
}

/// Reads what the wiki says of devil fruits with a fetcher of its own.
pub struct DfScraper<C: FetchHtml> {
    pub fetcher: HtmlFetcher<C>,
}

impl<C: FetchHtml> DfScraper<C> {
    /// A scraper that fetches its pages with `fetcher`.
    pub fn new(fetcher: HtmlFetcher<C>) -> (r: Self)
        ensures
            r.fetcher == fetcher,
    {
        Self { fetcher }
    }

    /// `r` is something that reading the pages of the classes may give with the fetcher
    /// `before`, `after` being the fetcher then: the table of the fruits and their paths,
    /// or the error of the first page that cannot be fetched or read.
    pub open spec fn classes_give(
        before: HtmlFetcher<C>,
        r: Result<(FruitTable, Vec<String>), Error>,
        after: HtmlFetcher<C>,
    ) -> bool {
        exists|answers: Seq<Result<String, Error>>| #[trigger]
            classes_fetched(before, answers, after) && match r {
                Ok((table, paths)) => answers.len() == classes_read().len() && table.wf() && tabled(
                    classes_read(),
                    answers,
                ) == Ok::<Seq<DevilFruitView>, ReadFailure>(table@) && paths.deep_view()
                    == listed_paths(classes_read(), answers),
                Err(e) => answers.len() > 0 && (tabled(
                    classes_read().take(answers.len() as int),
                    answers,
                ) matches Err(f) && is_failure(e, f)),
            }
    }

    /// `pictures` is something that the picture tasks for the pages at `paths` may bring
    /// with the fetcher `before`, which is `after` then: the store is asked for each page,
    /// and the cache is left as it is.
    pub open spec fn pictures_give(
        before: HtmlFetcher<C>,
        paths: Seq<Seq<char>>,
        pictures: Seq<(String, Result<String, Error>)>,
        after: HtmlFetcher<C>,
    ) -> bool {
        &&& after.base_url == before.base_url
        &&& after.cache == before.cache
        &&& pictures_fetched(before.client, before.base_url@, paths, pictures)
        &&& store_asked(before.client, addresses(before.base_url@, paths), after.client)
    }

    /// `list` is what comes of the table `table` of the fruits with the paths `paths` that
    /// the pages of the classes gave, the fetcher being `between` then, and of the pictures
    /// `pictures` that the picture tasks for these paths brought: `filled` holds the fruits
    /// of the table with the pictures put in, and `list` holds them in ascending order of
    /// their paths.
    pub open spec fn list_from(
        before: HtmlFetcher<C>,
        between: HtmlFetcher<C>,
        after: HtmlFetcher<C>,
        table: FruitTable,
        paths: Vec<String>,
        pictures: Seq<(String, Result<String, Error>)>,
        filled: Seq<DevilFruit>,
        list: Seq<DevilFruit>,
    ) -> bool {
        &&& Self::classes_give(
            before,
            Ok::<(FruitTable, Vec<String>), Error>((table, paths)),
            between,
        )
        &&& Self::pictures_give(between, paths.deep_view(), pictures, after)
        &&& fruit_views(filled) == with_pictures(table@, picture_views(pictures))
        &&& exists|origin: Seq<int>| is_stable_order(filled, list, origin)
    }

    /// `list` is something that the fruits may come to with the fetcher `before`, `after`
    /// being the fetcher then: what comes of some table that the pages of the classes may
    /// give and of some pictures that the picture tasks may bring.
    pub open spec fn list_given(
        before: HtmlFetcher<C>,
        after: HtmlFetcher<C>,
        list: Seq<DevilFruit>,
    ) -> bool {
        exists|
            between: HtmlFetcher<C>,
            table: FruitTable,
            paths: Vec<String>,
            pictures: Seq<(String, Result<String, Error>)>,
            filled: Seq<DevilFruit>,
        | #[trigger]
            Self::list_from(before, between, after, table, paths, pictures, filled, list)
    }

    /// Fetches and reads the pages of the classes in turn, and gives the table of the fruits
    /// that they list together with the paths of these fruits.
    pub fn read_classes(&mut self) -> (r: Result<(FruitTable, Vec<String>), Error>)
        ensures
            Self::classes_give(old(self).fetcher, r, final(self).fetcher),
    {
        let ghost start = self.fetcher;
        let classes = listed_classes();
        let mut table = FruitTable::new();
        let mut paths: Vec<String> = Vec::new();
        let ghost mut answers: Seq<Result<String, Error>> = Seq::empty();
        let mut i: usize = 0;
        assert(classes@.take(0) =~= Seq::empty());
        assert(class_paths(classes@.take(0)) =~= Seq::empty());
        assert(paths.deep_view() =~= Seq::empty());
        while i < classes.len()
            invariant
                i <= classes.len(),
                classes@ == classes_read(),
                start == old(self).fetcher,
                table.wf(),
                answers.len() == i,
                classes_fetched(start, answers, self.fetcher),
                tabled(classes@.take(i as int), answers) == Ok::<Seq<DevilFruitView>, ReadFailure>(
                    table@,
                ),
                paths.deep_view() == listed_paths(classes@.take(i as int), answers),
            decreases classes.len() - i,
        {
            let ghost earlier = answers;
            let ghost seen = classes@.take(i + 1);
            let ghost store = self.fetcher.client;
            let ghost held = self.fetcher.cache@;
            let df_type = classes[i];
            let answer = self.fetcher.fetch(df_type.get_path().as_str());
            proof {
                assert(may_give_from(
                    start.client,
                    start.base_url@,
                    held,
                    df_type.path(),
                    answer,
                ));
                lemma_store_asked_in_a_row(
                    start.client,
                    calls_in_turn(
                        start.base_url@,
                        start.cache@,
                        class_paths(classes@.take(i as int)),
                        earlier,
                    ),
                    store,
                    calls_for(start.base_url@, held, df_type.path()),
                    self.fetcher.client,
                );
                answers = earlier.push(answer);
                assert(seen.drop_last() =~= classes@.take(i as int));
                assert(seen.last() == df_type);
                assert(answers.drop_last() =~= earlier);
                assert(answers.last() == answer);
                assert(class_paths(seen).drop_last() =~= class_paths(classes@.take(i as int)));
                assert(class_paths(seen).last() == df_type.path());
                assert(classes_read().take(answers.len() as int) == seen);
                assert(classes_read().take(earlier.len() as int) == classes@.take(i as int));
                assert(fetched_in_turn(
                    start.client,
                    start.base_url@,
                    start.cache@,
                    class_paths(seen),
                    answers,
                ));
                assert(classes_fetched(start, answers, self.fetcher));
            }
            let html = match answer {
                Ok(html) => html,
                Err(e) => {
                    assert(tabled(seen, answers) == Err::<Seq<DevilFruitView>, ReadFailure>(
                        ReadFailure::Fetch(e),
                    ));
                    return Err(e);
                },
            };
            let fruits = match parse_fruit_page(df_type, html.as_str()) {
                Ok(fruits) => fruits,
                Err(e) => {
                    assert(tabled(seen, answers) matches Err(f) && is_failure(e, f));
                    return Err(e);
                },
            };
            let mut j: usize = 0;
            let ghost listed = paths.deep_view();
            assert(fruit_paths(fruit_views(fruits@)).take(0) =~= Seq::empty());
            while j < fruits.len()
                invariant
                    j <= fruits.len(),
                    paths.deep_view() == listed + fruit_paths(fruit_views(fruits@)).take(j as int),
                decreases fruits.len() - j,
            {
                let ghost so_far = paths.deep_view();
                paths.push(fruits[j].df_url.clone());
                assert(paths.deep_view() =~= so_far.push(fruits[j as int].df_url@));
                assert(fruit_paths(fruit_views(fruits@)).take(j + 1) =~= fruit_paths(
                    fruit_views(fruits@),
                ).take(j as int).push(fruits[j as int].df_url@));
                j += 1;
            }
            assert(fruit_paths(fruit_views(fruits@)).take(fruits.len() as int) =~= fruit_paths(
                fruit_views(fruits@),
            ));
            table.insert_all(fruits);
            i += 1;
        }
        assert(classes@.take(classes.len() as int) == classes@);
        Ok((table, paths))
    }

    /// Fetches the page of each of `paths` from the store and reads its picture off it.
    pub fn fetch_pictures(&mut self, paths: &Vec<String>) -> (r: Vec<(String, Result<String, Error>)>)
        ensures
            Self::pictures_give(old(self).fetcher, paths.deep_view(), r@, final(self).fetcher),
    {
        let ghost start = self.fetcher;
        let mut out: Vec<(String, Result<String, Error>)> = Vec::new();
        let mut i: usize = 0;
        assert(addresses(start.base_url@, paths.deep_view().take(0)) =~= Seq::empty());
        while i < paths.len()
            invariant
                i <= paths.len(),
                start == old(self).fetcher,
                Self::pictures_give(start, paths.deep_view().take(i as int), out@, self.fetcher),
            decreases paths.len() - i,
        {
            let ghost done = out@;
            let ghost store = self.fetcher.client;
            let answer = self.fetcher.fetch_only(paths[i].as_str());
            let ghost given = answer;
            let picture = match answer {
                Ok(html) => parse_picture(html.as_str()),
                Err(e) => Err(e),
            };
            assert(picture_fetched(start.client, start.base_url@, paths[i as int]@, picture)) by {
                assert(start.client.answers(start.base_url@ + paths[i as int]@, given));
            }
            out.push((paths[i].clone(), picture));
            proof {
                let seen = paths.deep_view().take(i + 1);
                let earlier = paths.deep_view().take(i as int);
                assert(addresses(start.base_url@, seen) =~= addresses(start.base_url@, earlier)
                    + seq![start.base_url@ + paths[i as int]@]);
                lemma_store_asked_in_a_row(
                    start.client,
                    addresses(start.base_url@, earlier),
                    store,
                    seq![start.base_url@ + paths[i as int]@],
                    self.fetcher.client,
                );
                assert forall|k: int| 0 <= k < seen.len() implies (#[trigger] out@[k]).0@ == seen[k]
                    && picture_fetched(start.client, start.base_url@, seen[k], out@[k].1) by {
                    if k < i {
                        assert(out@[k] == done[k]);
                        assert(seen[k] == earlier[k]);
                    }
                }
            }
            i += 1;
        }
        assert(paths.deep_view().take(paths.len() as int) == paths.deep_view());
        out
    }
}

impl<C: FetchHtml> DfScrapable for DfScraper<C> {
    /// The page of the classes is fetched, from the cache where the cache holds it, and
    /// read.
    open spec fn gives_infos(&self, r: Result<Vec<DfTypeInfo>, Error>, after: Self) -> bool {
        &&& after.fetcher.base_url == self.fetcher.base_url
        &&& store_asked(
            self.fetcher.client,
            calls_for(self.fetcher.base_url@, self.fetcher.cache@, TYPE_INFO_PATH@),
            after.fetcher.client,
        )
        &&& exists|answer: Result<String, Error>|
            #![trigger self.fetcher.may_give(TYPE_INFO_PATH@, answer)]
            self.fetcher.may_give(TYPE_INFO_PATH@, answer) && after.fetcher.cache@ == cache_after(
                self.fetcher.cache@,
                TYPE_INFO_PATH@,
                answer,
            ) && match answer {
                Ok(html) => is_infos(r, type_infos_of(html@, document_nodes(html@))),
                Err(e) => r == Err::<Vec<DfTypeInfo>, Error>(e),
            }
    }

    /// The pages of the classes are read into a table; the picture of each fruit is
    /// fetched and put into the table, a picture that cannot be had leaving its fruit as
    /// it is; the fruits of the table come in ascending order of their paths.
    open spec fn gives_list(&self, r: Result<Vec<DevilFruit>, Error>, after: Self) -> bool {
        match r {
            Err(e) => Self::classes_give(
                self.fetcher,
                Err::<(FruitTable, Vec<String>), Error>(e),
                after.fetcher,
            ),
            Ok(list) => Self::list_given(self.fetcher, after.fetcher, list@),
        }
    }

    fn get_dftype_info(&mut self) -> (r: Result<Vec<DfTypeInfo>, Error>) {
        let answer = self.fetcher.fetch(TYPE_INFO_PATH);
        let ghost given = answer;
        let r = match answer {
            Ok(html) => parse_dftype_info(html.as_str()),
            Err(e) => Err(e),
        };
        assert(old(self).fetcher.may_give(TYPE_INFO_PATH@, given));
        r
    }

    fn get_df_list(&mut self) -> (r: Result<Vec<DevilFruit>, Error>) {
        let (mut table, paths) = self.read_classes()?;
        let ghost between = self.fetcher;
        let ghost first = table;
        let pictures = self.fetch_pictures(&paths);
        let ghost brought = pictures@;
        table.apply_pictures(pictures);
        let ghost filled = table.fruits@;
        let list = table.into_sorted();
        assert(Self::list_from(
            old(self).fetcher,
            between,
            self.fetcher,
            first,
            paths,
            brought,
            filled,
            list@,
        ));
        assert(Self::list_given(old(self).fetcher, self.fetcher, list@));
        Ok(list)
    }
}

} // verus!
