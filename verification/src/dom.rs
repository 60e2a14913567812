use crate::text::{concat, same_text};
use crate::types::{invalid_structure, Error};
use scraper::Node as HtmlNode;
use scraper::{ElementRef, Html, Selector};
use vstd::prelude::*;

verus! {

/// What a node of a document is.
#[derive(Debug, Clone, Copy, PartialEq, Eq, Structural)]
pub enum NodeKind {
    /// An element, with a name and attributes.
    Element,
    /// A run of text.
    Text,
    /// Anything else: the root, a comment, a doctype.
    Other,
}

/// An attribute of an element, as a value of specifications.
pub ghost struct AttributeView {
    pub namespace: Seq<char>,
    pub name: Seq<char>,
    pub value: Seq<char>,
}

/// An attribute of an element.
#[derive(Debug)]
pub struct Attribute {
    /// The namespace of the attribute, empty for the attributes of HTML itself.
    pub namespace: String,
    pub name: String,
    pub value: String,
}

impl View for Attribute {
    type V = AttributeView;

    open spec fn view(&self) -> AttributeView {
        AttributeView { namespace: self.namespace@, name: self.name@, value: self.value@ }
    }
}

/// The attributes `attrs`, as values of specifications.
pub open spec fn attr_views(attrs: Seq<Attribute>) -> Seq<AttributeView> {
    attrs.map_values(|a: Attribute| a@)
}

impl Attribute {
    /// The attribute `name` of the namespace `namespace` with the value `value`.
    pub fn new(namespace: &str, name: &str, value: &str) -> (r: Attribute)
        ensures
            r.namespace@ == namespace@,
            r.name@ == name@,
            r.value@ == value@,
    {
        Attribute { namespace: namespace.to_owned(), name: name.to_owned(), value: value.to_owned() }
    }
}

/// A node of a document, as a value of specifications.
pub ghost struct NodeView {
    pub depth: usize,
    pub kind: NodeKind,
    pub name: Seq<char>,
    pub attrs: Seq<AttributeView>,
    pub text: Seq<char>,
}

/// A node of a document. A document is the list of its nodes in document order, each with
/// its depth below the root: a node's subtree is the run of deeper nodes that follows it.
#[derive(Debug)]
pub struct Node {
    /// How many ancestors the node has.
    pub depth: usize,
    pub kind: NodeKind,
    /// The name of an element; empty for other nodes.
    pub name: String,
    /// The attributes of an element.
    pub attrs: Vec<Attribute>,
    /// The text of a text node; empty for other nodes.
    pub text: String,
}

impl View for Node {
    type V = NodeView;

    open spec fn view(&self) -> NodeView {
        NodeView {
            depth: self.depth,
            kind: self.kind,
            name: self.name@,
            attrs: attr_views(self.attrs@),
            text: self.text@,
        }
    }
}

/// The nodes `nodes`, as values of specifications.
pub open spec fn node_views(nodes: Seq<Node>) -> Seq<NodeView> {
    nodes.map_values(|n: Node| n@)
}

impl Node {
    /// An element at depth `depth`.
    pub fn element(depth: usize, name: &str, attrs: Vec<Attribute>) -> (r: Node)
        ensures
            r.depth == depth,
            r.kind == NodeKind::Element,
            r.name@ == name@,
            r.attrs == attrs,
            r.text@ == Seq::<char>::empty(),
    {
        Node { depth, kind: NodeKind::Element, name: name.to_owned(), attrs, text: String::new() }
    }

    /// A run of text at depth `depth`.
    pub fn text(depth: usize, text: &str) -> (r: Node)
        ensures
            r.depth == depth,
            r.kind == NodeKind::Text,
            r.name@ == Seq::<char>::empty(),
            r.attrs@ == Seq::<Attribute>::empty(),
            r.text@ == text@,
    {
        Node {
            depth,
            kind: NodeKind::Text,
            name: String::new(),
            attrs: Vec::new(),
            text: text.to_owned(),
        }
    }

    /// A node at depth `depth` that is neither an element nor text.
    pub fn other(depth: usize) -> (r: Node)
        ensures
            r.depth == depth,
            r.kind == NodeKind::Other,
            r.name@ == Seq::<char>::empty(),
            r.attrs@ == Seq::<Attribute>::empty(),
            r.text@ == Seq::<char>::empty(),
    {
        Node {
            depth,
            kind: NodeKind::Other,
            name: String::new(),
            attrs: Vec::new(),
            text: String::new(),
        }
    }

    /// Whether the node is an element.
    pub fn is_element(&self) -> (r: bool)
        ensures
            r == (self.kind == NodeKind::Element),
    {
        match self.kind {
            NodeKind::Element => true,
            _ => false,
        }
    }

    /// Whether the node is a run of text.
    pub fn is_text(&self) -> (r: bool)
        ensures
            r == (self.kind == NodeKind::Text),
    {
        match self.kind {
            NodeKind::Text => true,
            _ => false,
        }
    }
}

/// The nodes of the tree that scraper's `Html::parse_document` builds from `html`, in document
/// order.
pub uninterp spec fn document_nodes(html: Seq<char>) -> Seq<NodeView>;

/// For each node of that tree, in the same order, whether it is an element that `selector`
/// matches; nothing if scraper's `Selector::parse` does not accept `selector`.
pub uninterp spec fn document_marks(html: Seq<char>, selector: Seq<char>) -> Option<Seq<bool>>;

/// The longest page that is read, in characters. A longer text is not handed to the parser,
/// which cannot hold a text of more than `u32::MAX` bytes.
pub const MAX_PAGE_CHARS: usize = 0x3FFF_FFFF;

/// What is said of a page that is longer than `MAX_PAGE_CHARS`.
pub const PAGE_TOO_LONG: &'static str = "Page too long";

/// The message that reports `selector` as one that cannot be read.
pub open spec fn selector_error(selector: Seq<char>) -> Seq<char> {
    "Invalid selector: "@ + selector
}

/// The nodes of the page `html`, or the message of the structure error that reading it
/// gives: a page of more than `MAX_PAGE_CHARS` characters is not read.
pub open spec fn page_nodes(html: Seq<char>) -> Result<Seq<NodeView>, Seq<char>> {
    if html.len() > MAX_PAGE_CHARS {
        Err(PAGE_TOO_LONG@)
    } else {
        Ok(document_nodes(html))
    }
}

/// For each node of the page `html` whether `selector` selects it, or the message of the
/// structure error that asking gives: a page of more than `MAX_PAGE_CHARS` characters is
/// not read, and a selector may be one that cannot be read.
pub open spec fn marks_of(html: Seq<char>, selector: Seq<char>) -> Result<Seq<bool>, Seq<char>> {
    if html.len() > MAX_PAGE_CHARS {
        Err(PAGE_TOO_LONG@)
    } else {
        match document_marks(html, selector) {
            Some(m) => Ok(m),
            None => Err(selector_error(selector)),
        }
    }
}

/// Parses `html` with scraper's `Html::parse_document` and copies the tree out node by node,
/// root first, in the order of `descendants`: for each node the number of its ancestors, for
/// an element its local name and its attributes in the order in which scraper keeps them,
/// each with its namespace, its local name and its value, for a text node its text.
/// The parser holds the text in a buffer of at most `u32::MAX` bytes, so longer texts are
/// left out: a character takes four bytes at most.
#[verifier::external_body]
fn parse_document_nodes(html: &str) -> (r: Vec<Node>)
    requires
        html@.len() <= 0x3FFF_FFFF,
    ensures
        node_views(r@) == document_nodes(html@),
{
    Html::parse_document(html).tree.root().descendants().map(|n| match n.value() {
        HtmlNode::Element(v) => Node::element(
            n.ancestors().count(),
            v.name(),
            v.attrs.iter().map(|(k, v)| Attribute::new(&k.ns, &k.local, v)).collect(),
        ),
        HtmlNode::Text(t) => Node::text(n.ancestors().count(), t),
        _ => Node::other(n.ancestors().count()),
    }).collect()
}

/// Parses `selector` with scraper's `Selector::parse` and `html` with `Html::parse_document`,
/// and asks `Selector::matches` of each element of the tree, in the order of `descendants`.
/// A node that is no element gets `false`, so there are as many marks as the tree has
/// nodes. Texts that the parser's buffer cannot hold are left out.
#[verifier::external_body]
fn selector_marks(html: &str, selector: &str) -> (r: Option<Vec<bool>>)
    requires
        html@.len() <= 0x3FFF_FFFF,
    ensures
        match r {
            Some(m) => document_marks(html@, selector@) == Some(m@) && m@.len() == document_nodes(
                html@,
            ).len(),
            None => document_marks(html@, selector@) is None,
        },
{
    let s = Selector::parse(selector).ok()?;
    let doc = Html::parse_document(html);
    let marked = |n| ElementRef::wrap(n).is_some_and(|e| s.matches(&e));
    Some(doc.tree.root().descendants().map(marked).collect())
}

/// A parsed page: its text and the nodes of its tree in document order.
#[derive(Debug)]
pub struct Document {
    pub html: String,
    pub nodes: Vec<Node>,
}

impl View for Document {
    type V = Seq<NodeView>;

    open spec fn view(&self) -> Seq<NodeView> {
        node_views(self.nodes@)
    }
}

/// The first position at or after `from` whose node is no deeper than `floor`; the number of
/// nodes if there is none.
pub open spec fn run_end(nodes: Seq<NodeView>, floor: int, from: int) -> int
    decreases nodes.len() - from,
{
    if from < 0 || from >= nodes.len() {
        nodes.len() as int
    } else if nodes[from].depth <= floor {
        from
    } else {
        run_end(nodes, floor, from + 1)
    }
}

/// The position just after the subtree of node `i`.
pub open spec fn subtree_end(nodes: Seq<NodeView>, i: int) -> int {
    run_end(nodes, nodes[i].depth as int, i + 1)
}

/// The position just after the last node below the parent of node `i`.
pub open spec fn siblings_end(nodes: Seq<NodeView>, i: int) -> int {
    run_end(nodes, nodes[i].depth - 1, i + 1)
}

/// The nearest position at or before `from` whose node is less deep than `depth`.
pub open spec fn nearest_above(nodes: Seq<NodeView>, depth: int, from: int) -> Option<usize>
    decreases from + 1,
{
    if from < 0 || from >= nodes.len() {
        None
    } else if nodes[from].depth < depth {
        Some(from as usize)
    } else {
        nearest_above(nodes, depth, from - 1)
    }
}

/// The parent of node `i`.
pub open spec fn parent_of(nodes: Seq<NodeView>, i: int) -> Option<usize> {
    nearest_above(nodes, nodes[i].depth as int, i - 1)
}

/// The positions from `lo` up to `hi` that `marks` marks, in order.
pub open spec fn selected_between(marks: Seq<bool>, lo: int, hi: int) -> Seq<usize>
    decreases hi - lo,
{
    if hi <= lo {
        Seq::empty()
    } else if 0 <= hi - 1 < marks.len() && marks[hi - 1] {
        selected_between(marks, lo, hi - 1).push((hi - 1) as usize)
    } else {
        selected_between(marks, lo, hi - 1)
    }
}

/// The positions from `lo` up to `hi` whose nodes are at depth `depth`, in order.
pub open spec fn level_between(nodes: Seq<NodeView>, depth: int, lo: int, hi: int) -> Seq<usize>
    decreases hi - lo,
{
    if hi <= lo {
        Seq::empty()
    } else if 0 <= hi - 1 < nodes.len() && nodes[hi - 1].depth == depth {
        level_between(nodes, depth, lo, hi - 1).push((hi - 1) as usize)
    } else {
        level_between(nodes, depth, lo, hi - 1)
    }
}

/// Those of the positions `at` whose nodes are elements, in the same order.
pub open spec fn elements_among(nodes: Seq<NodeView>, at: Seq<usize>) -> Seq<usize>
    decreases at.len(),
{
    if at.len() == 0 {
        Seq::empty()
    } else if at.last() < nodes.len() && nodes[at.last() as int].kind == NodeKind::Element {
        elements_among(nodes, at.drop_last()).push(at.last())
    } else {
        elements_among(nodes, at.drop_last())
    }
}

/// The texts of the text nodes from `lo` up to `hi`, in order.
pub open spec fn texts_between(nodes: Seq<NodeView>, lo: int, hi: int) -> Seq<Seq<char>>
    decreases hi - lo,
{
    if hi <= lo {
        Seq::empty()
    } else if 0 <= hi - 1 < nodes.len() && nodes[hi - 1].kind == NodeKind::Text {
        texts_between(nodes, lo, hi - 1).push(nodes[hi - 1].text)
    } else {
        texts_between(nodes, lo, hi - 1)
    }
}

/// The elements that `marks` marks below node `scope`, in document order.
pub open spec fn selected_in(nodes: Seq<NodeView>, marks: Seq<bool>, scope: int) -> Seq<usize> {
    selected_between(marks, scope + 1, subtree_end(nodes, scope))
}

/// The elements that `marks` marks anywhere in the document, in document order.
pub open spec fn selected_all(nodes: Seq<NodeView>, marks: Seq<bool>) -> Seq<usize> {
    selected_between(marks, 0, nodes.len() as int)
}

/// The children of node `i`, in order.
pub open spec fn children_of(nodes: Seq<NodeView>, i: int) -> Seq<usize> {
    level_between(nodes, nodes[i].depth + 1, i + 1, subtree_end(nodes, i))
}

/// The children of node `i` that are elements, in order.
pub open spec fn child_elements_of(nodes: Seq<NodeView>, i: int) -> Seq<usize> {
    elements_among(nodes, children_of(nodes, i))
}

/// The siblings that follow node `i`, in order.
pub open spec fn following_siblings(nodes: Seq<NodeView>, i: int) -> Seq<usize> {
    level_between(nodes, nodes[i].depth as int, i + 1, siblings_end(nodes, i))
}

/// The texts of node `i` and of the nodes below it, in document order.
pub open spec fn text_runs(nodes: Seq<NodeView>, i: int) -> Seq<Seq<char>> {
    texts_between(nodes, i, subtree_end(nodes, i))
}

/// The value of the first attribute at or after `from` that is named `name` and, unless
/// `any_namespace` is set, has no namespace.
pub open spec fn attr_from(
    attrs: Seq<AttributeView>,
    name: Seq<char>,
    any_namespace: bool,
    from: int,
) -> Option<Seq<char>>
    decreases attrs.len() - from,
{
    if from < 0 || from >= attrs.len() {
        None
    } else if attrs[from].name == name && (any_namespace || attrs[from].namespace.len() == 0) {
        Some(attrs[from].value)
    } else {
        attr_from(attrs, name, any_namespace, from + 1)
    }
}

/// The value of the attribute `name` of node `i`.
pub open spec fn attr_of(nodes: Seq<NodeView>, i: int, name: Seq<char>) -> Option<Seq<char>> {
    attr_from(nodes[i].attrs, name, false, 0)
}

/// The id of node `i`: the value of its first attribute named `id`.
pub open spec fn id_of(nodes: Seq<NodeView>, i: int) -> Option<Seq<char>> {
    attr_from(nodes[i].attrs, "id"@, true, 0)
}

fn find_attr(attrs: &Vec<Attribute>, name: &str, any_namespace: bool) -> (r: Option<String>)
    ensures
        match r {
            Some(v) => attr_from(attr_views(attrs@), name@, any_namespace, 0) == Some(v@),
            None => attr_from(attr_views(attrs@), name@, any_namespace, 0) is None,
        },
{
    let mut i: usize = 0;
    while i < attrs.len()
        invariant
            i <= attrs.len(),
            attr_from(attr_views(attrs@), name@, any_namespace, 0) == attr_from(
                attr_views(attrs@),
                name@,
                any_namespace,
                i as int,
            ),
        decreases attrs.len() - i,
    {
        let a = &attrs[i];
        if same_text(a.name.as_str(), name) && (any_namespace || a.namespace.as_str().is_empty()) {
            return Some(a.value.clone());
        }
        i += 1;
    }
    None
}

impl Document {
    /// Reads the page `html`. A page of more than `MAX_PAGE_CHARS` characters is a structure
    /// error.
    pub fn parse(html: &str) -> (r: Result<Document, Error>)
        ensures
            match page_nodes(html@) {
                Ok(nodes) => r matches Ok(doc) && doc.html@ == html@ && doc@ == nodes,
                Err(msg) => r matches Err(e) && e.is_structure(msg),
            },
    {
        if html.unicode_len() > MAX_PAGE_CHARS {
            return Err(invalid_structure(PAGE_TOO_LONG));
        }
        Ok(Document { html: html.to_owned(), nodes: parse_document_nodes(html) })
    }

    /// For each node of the page, whether `selector` selects it: as many marks as the page
    /// with this text has nodes. A selector that cannot be read is a structure error, and so
    /// is a page of more than `MAX_PAGE_CHARS` characters.
    pub fn marks(&self, selector: &str) -> (r: Result<Vec<bool>, Error>)
        ensures
            match marks_of(self.html@, selector@) {
                Ok(m) => r matches Ok(v) && v@ == m && m.len() == document_nodes(self.html@).len(),
                Err(msg) => r matches Err(e) && e.is_structure(msg),
            },
    {
        if self.html.as_str().unicode_len() > MAX_PAGE_CHARS {
            return Err(invalid_structure(PAGE_TOO_LONG));
        }
        match selector_marks(self.html.as_str(), selector) {
            Some(m) => Ok(m),
            None => Err(Error::InvalidStructure(concat("Invalid selector: ", selector))),
        }
    }

    /// The position just after the subtree of node `i`.
    pub fn subtree_end(&self, i: usize) -> (r: usize)
        requires
            i < self.nodes.len(),
        ensures
            r == subtree_end(self@, i as int),
            i < r <= self.nodes.len(),
    {
        let floor: usize = self.nodes[i].depth;
        let mut j: usize = i + 1;
        while j < self.nodes.len() && self.nodes[j].depth > floor
            invariant
                i < j <= self.nodes.len(),
                run_end(self@, floor as int, i + 1) == run_end(
                    self@,
                    floor as int,
                    j as int,
                ),
            decreases self.nodes.len() - j,
        {
            j += 1;
        }
        j
    }

    /// The position just after the last node below the parent of node `i`.
    pub fn siblings_end(&self, i: usize) -> (r: usize)
        requires
            i < self.nodes.len(),
        ensures
            r == siblings_end(self@, i as int),
            i < r <= self.nodes.len(),
    {
        let depth: usize = self.nodes[i].depth;
        let mut j: usize = i + 1;
        while j < self.nodes.len() && self.nodes[j].depth >= depth
            invariant
                i < j <= self.nodes.len(),
                run_end(self@, depth - 1, i + 1) == run_end(self@, depth - 1, j as int),
            decreases self.nodes.len() - j,
        {
            j += 1;
        }
        j
    }

    /// The parent of node `i`.
    pub fn parent(&self, i: usize) -> (r: Option<usize>)
        requires
            i < self.nodes.len(),
        ensures
            r == parent_of(self@, i as int),
            r matches Some(p) ==> p < i,
    {
        let depth: usize = self.nodes[i].depth;
        let mut j: usize = i;
        while j > 0
            invariant
                j <= i < self.nodes.len(),
                depth == self.nodes[i as int].depth,
                nearest_above(self@, depth as int, i - 1) == nearest_above(
                    self@,
                    depth as int,
                    j - 1,
                ),
            decreases j,
        {
            j -= 1;
            if self.nodes[j].depth < depth {
                assert(nearest_above(self@, depth as int, j as int) == Some(j));
                return Some(j);
            }
        }
        None
    }

    /// The positions from `lo` up to `hi` that `marks` marks.
    pub fn selected_between(&self, marks: &Vec<bool>, lo: usize, hi: usize) -> (r: Vec<usize>)
        ensures
            r@ == selected_between(marks@, lo as int, hi as int),
            forall|k: int| 0 <= k < r.len() ==> lo <= #[trigger] r[k] < hi && r[k] < marks.len(),
    {
        let mut out: Vec<usize> = Vec::new();
        if hi <= lo {
            return out;
        }
        let mut j: usize = lo;
        while j < hi
            invariant
                lo <= j <= hi,
                out@ == selected_between(marks@, lo as int, j as int),
                forall|k: int| 0 <= k < out.len() ==> lo <= #[trigger] out[k] < j && out[k] < marks.len(),
            decreases hi - j,
        {
            if j < marks.len() && marks[j] {
                out.push(j);
            }
            j += 1;
        }
        out
    }

    /// The elements that `marks` marks below node `scope`, in document order.
    pub fn select_in(&self, marks: &Vec<bool>, scope: usize) -> (r: Vec<usize>)
        requires
            scope < self.nodes.len(),
        ensures
            r@ == selected_in(self@, marks@, scope as int),
            forall|k: int| 0 <= k < r.len() ==> #[trigger] r[k] < self.nodes.len(),
    {
        let end = self.subtree_end(scope);
        self.selected_between(marks, scope + 1, end)
    }

    /// The elements that `marks` marks anywhere in the page, in document order.
    pub fn select_all(&self, marks: &Vec<bool>) -> (r: Vec<usize>)
        ensures
            r@ == selected_all(self@, marks@),
            forall|k: int| 0 <= k < r.len() ==> #[trigger] r[k] < self.nodes.len(),
    {
        self.selected_between(marks, 0, self.nodes.len())
    }

    /// The positions from `lo` up to `hi` whose nodes are at depth `depth`.
    fn level_between(&self, depth: usize, lo: usize, hi: usize) -> (r: Vec<usize>)
        requires
            hi <= self.nodes.len(),
        ensures
            r@ == level_between(self@, depth as int, lo as int, hi as int),
            forall|k: int| 0 <= k < r.len() ==> #[trigger] r[k] < self.nodes.len(),
    {
        let mut out: Vec<usize> = Vec::new();
        if hi <= lo {
            return out;
        }
        let mut j: usize = lo;
        while j < hi
            invariant
                lo <= j <= hi,
                hi <= self.nodes.len(),
                out@ == level_between(self@, depth as int, lo as int, j as int),
                forall|k: int| 0 <= k < out.len() ==> #[trigger] out[k] < self.nodes.len(),
            decreases hi - j,
        {
            if self.nodes[j].depth == depth {
                out.push(j);
            }
            j += 1;
        }
        out
    }

    /// The children of node `i`, in order.
    pub fn children(&self, i: usize) -> (r: Vec<usize>)
        requires
            i < self.nodes.len(),
        ensures
            r@ == children_of(self@, i as int),
            forall|k: int| 0 <= k < r.len() ==> #[trigger] r[k] < self.nodes.len(),
    {
        let end = self.subtree_end(i);
        if self.nodes[i].depth == usize::MAX {
            proof {
                lemma_level_empty(self@, self.nodes[i as int].depth + 1, i + 1, end as int);
            }
            return Vec::new();
        }
        self.level_between(self.nodes[i].depth + 1, i + 1, end)
    }

    /// Those of the positions `at` whose nodes are elements.
    pub fn elements_among(&self, at: &Vec<usize>) -> (r: Vec<usize>)
        ensures
            r@ == elements_among(self@, at@),
            forall|k: int| 0 <= k < r.len() ==> #[trigger] r[k] < self.nodes.len(),
    {
        let mut out: Vec<usize> = Vec::new();
        let mut j: usize = 0;
        while j < at.len()
            invariant
                j <= at.len(),
                out@ == elements_among(self@, at@.take(j as int)),
                forall|k: int| 0 <= k < out.len() ==> #[trigger] out[k] < self.nodes.len(),
            decreases at.len() - j,
        {
            assert(at@.take(j + 1).drop_last() == at@.take(j as int));
            if at[j] < self.nodes.len() && self.nodes[at[j]].is_element() {
                out.push(at[j]);
            }
            j += 1;
        }
        assert(at@.take(at.len() as int) == at@);
        out
    }

    /// The children of node `i` that are elements, in order.
    pub fn child_elements(&self, i: usize) -> (r: Vec<usize>)
        requires
            i < self.nodes.len(),
        ensures
            r@ == child_elements_of(self@, i as int),
            forall|k: int| 0 <= k < r.len() ==> #[trigger] r[k] < self.nodes.len(),
    {
        let all = self.children(i);
        self.elements_among(&all)
    }

    /// The siblings that follow node `i`, in order.
    pub fn following_siblings(&self, i: usize) -> (r: Vec<usize>)
        requires
            i < self.nodes.len(),
        ensures
            r@ == following_siblings(self@, i as int),
            forall|k: int| 0 <= k < r.len() ==> #[trigger] r[k] < self.nodes.len(),
    {
        let end = self.siblings_end(i);
        self.level_between(self.nodes[i].depth, i + 1, end)
    }

    /// The texts of node `i` and of the nodes below it, in document order.
    pub fn text_runs(&self, i: usize) -> (r: Vec<String>)
        requires
            i < self.nodes.len(),
        ensures
            r.deep_view() == text_runs(self@, i as int),
    {
        let end = self.subtree_end(i);
        let mut out: Vec<String> = Vec::new();
        let mut j: usize = i;
        while j < end
            invariant
                i <= j <= end <= self.nodes.len(),
                out.deep_view() == texts_between(self@, i as int, j as int),
            decreases end - j,
        {
            if self.nodes[j].is_text() {
                let ghost before = out.deep_view();
                out.push(self.nodes[j].text.clone());
                assert(out.deep_view() =~= before.push(self@[j as int].text));
            }
            j += 1;
        }
        out
    }

    /// The value of the attribute `name` of node `i`.
    pub fn attr(&self, i: usize, name: &str) -> (r: Option<String>)
        requires
            i < self.nodes.len(),
        ensures
            match r {
                Some(v) => attr_of(self@, i as int, name@) == Some(v@),
                None => attr_of(self@, i as int, name@) is None,
            },
    {
        find_attr(&self.nodes[i].attrs, name, false)
    }

    /// The id of node `i`.
    pub fn id(&self, i: usize) -> (r: Option<String>)
        requires
            i < self.nodes.len(),
        ensures
            match r {
                Some(v) => id_of(self@, i as int) == Some(v@),
                None => id_of(self@, i as int) is None,
            },
    {
        find_attr(&self.nodes[i].attrs, "id", true)
    }
}

proof fn lemma_level_empty(nodes: Seq<NodeView>, depth: int, lo: int, hi: int)
    requires
        depth > usize::MAX,
    ensures
        level_between(nodes, depth, lo, hi) == Seq::<usize>::empty(),
    decreases hi - lo,
{
    if hi > lo {
        lemma_level_empty(nodes, depth, lo, hi - 1);
    }
}

} // verus!
