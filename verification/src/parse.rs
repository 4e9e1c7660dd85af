//! Building the DOM tree from a parser's document-order events.
//!
//! An HTML parser reports the nodes under the document in document order:
//! an element opens, its attributes given, its content follows, and it
//! closes. Text and comments come as they are. The tree is built as the
//! events arrive, each node appended to the element that is open.
use vstd::prelude::*;
use crate::dom::{
    attrs_set, attrs_view, fresh_node, is_forest, law_append_leaf_keeps_forest, law_create_keeps_forest,
    law_new_tree_is_forest, ranked, spec_append, DomTree, KindView, Namespace, NodeId, NodeView, forest_rank,
};
use crate::text::{push_str, str_eq, str_from};
use std::io::Cursor;
use html5ever::parse_document;
use html5ever::tendril::TendrilSink;
use markup5ever_rcdom::{Handle, NodeData, RcDom};
use markup5ever_rcdom::Node as RcNode;

verus! {

/// One parser event.
#[derive(Debug, Clone)]
pub enum ParseEvent {
    /// An element opens, with its namespace URL and attributes.
    Open { tag: String, namespace_url: String, attributes: Vec<(String, String)> },
    /// The element opened last closes.
    Close,
    /// A text node.
    Text(String),
    /// A comment node.
    Comment(String),
}

/// The content of a parser event.
pub enum EventView {
    Open { tag: Seq<char>, namespace_url: Seq<char>, attributes: Seq<(Seq<char>, Seq<char>)> },
    Close,
    Text(Seq<char>),
    Comment(Seq<char>),
}

impl View for ParseEvent {
    type V = EventView;

    open spec fn view(&self) -> EventView {
        match self {
            ParseEvent::Open { tag, namespace_url, attributes } => EventView::Open {
                tag: tag@,
                namespace_url: namespace_url@,
                attributes: attrs_view(attributes@),
            },
            ParseEvent::Close => EventView::Close,
            ParseEvent::Text(s) => EventView::Text(s@),
            ParseEvent::Comment(s) => EventView::Comment(s@),
        }
    }
}

/// The content of a list of events.
pub open spec fn events_view(s: Seq<ParseEvent>) -> Seq<EventView> {
    s.map_values(|e: ParseEvent| e@)
}

/// The namespace named by a URL: SVG and MathML by their URLs, HTML
/// otherwise.
pub open spec fn ns_of(url: Seq<char>) -> Namespace {
    if url == "http://www.w3.org/2000/svg"@ {
        Namespace::Svg
    } else if url == "http://www.w3.org/1998/Math/MathML"@ {
        Namespace::MathMl
    } else {
        Namespace::Html
    }
}

/// The namespace an element's namespace URL names.
pub fn namespace_for(url: &str) -> (r: Namespace)
    ensures
        r == ns_of(url@),
{
    if str_eq(url, "http://www.w3.org/2000/svg") {
        Namespace::Svg
    } else if str_eq(url, "http://www.w3.org/1998/Math/MathML") {
        Namespace::MathMl
    } else {
        Namespace::Html
    }
}

/// The tree with one attribute of node `id` set.
pub open spec fn set_attr(t: Seq<NodeView>, id: NodeId, name: Seq<char>, value: Seq<char>) -> Seq<NodeView> {
    if id.0 < t.len() {
        t.update(id.0 as int, NodeView { attrs: attrs_set(t[id.0 as int].attrs, name, value), ..t[id.0 as int] })
    } else {
        t
    }
}

/// The tree with the attributes of node `id` set in order.
pub open spec fn set_attrs(t: Seq<NodeView>, id: NodeId, attrs: Seq<(Seq<char>, Seq<char>)>) -> Seq<NodeView>
    decreases attrs.len(),
{
    if attrs.len() == 0 {
        t
    } else {
        set_attr(set_attrs(t, id, attrs.drop_last()), id, attrs.last().0, attrs.last().1)
    }
}

/// The tree with a new node of the given kind appended under `parent`.
pub open spec fn add_under(t: Seq<NodeView>, parent: NodeId, kind: KindView) -> Seq<NodeView> {
    spec_append(t.push(fresh_node(t.len() as int, kind)), parent, NodeId(t.len() as usize))
}

/// One event applied to the tree and the stack of open elements (whose
/// last entry is where new nodes go).
pub open spec fn step(t: Seq<NodeView>, stack: Seq<NodeId>, e: EventView) -> (Seq<NodeView>, Seq<NodeId>) {
    let id = NodeId(t.len() as usize);
    match e {
        EventView::Open { tag, namespace_url, attributes } => {
            let t1 = t.push(fresh_node(t.len() as int, KindView::Element { tag, namespace: ns_of(namespace_url) }));
            (spec_append(set_attrs(t1, id, attributes), stack.last(), id), stack.push(id))
        },
        EventView::Close => if stack.len() > 1 {
            (t, stack.drop_last())
        } else {
            (t, stack)
        },
        EventView::Text(s) => if s.len() == 0 {
            (t, stack)
        } else {
            (add_under(t, stack.last(), KindView::Text(s)), stack)
        },
        EventView::Comment(s) => (add_under(t, stack.last(), KindView::Comment(s)), stack),
    }
}

/// The tree and the open elements after a list of events, starting from a
/// new tree with its document open.
pub open spec fn run(events: Seq<EventView>) -> (Seq<NodeView>, Seq<NodeId>)
    decreases events.len(),
{
    if events.len() == 0 {
        (seq![fresh_node(0, KindView::Document)], seq![NodeId(0)])
    } else {
        let (t, stack) = run(events.drop_last());
        step(t, stack, events.last())
    }
}

/// Setting attributes changes no node's children, parent or kind.
proof fn lemma_set_attrs_shape(t: Seq<NodeView>, id: NodeId, attrs: Seq<(Seq<char>, Seq<char>)>)
    ensures
        set_attrs(t, id, attrs).len() == t.len(),
        forall|i: int| 0 <= i < t.len() ==> (#[trigger] set_attrs(t, id, attrs)[i]).children == t[i].children
            && set_attrs(t, id, attrs)[i].parent == t[i].parent,
    decreases attrs.len(),
{
    if attrs.len() > 0 {
        lemma_set_attrs_shape(t, id, attrs.drop_last());
    }
}

/// Trees with the same children lists rank the same way.
proof fn lemma_same_children_forest(t: Seq<NodeView>, u: Seq<NodeView>)
    requires
        is_forest(t),
        u.len() == t.len(),
        forall|i: int| 0 <= i < t.len() ==> #[trigger] u[i].children == t[i].children,
    ensures
        is_forest(u),
{
    let r = forest_rank(t);
    assert(ranked(t, r));
    assert forall|i: int, j: int|
        0 <= i < u.len() && 0 <= j < u[i].children.len() && (#[trigger] u[i].children[j]).0 < u.len()
            implies r[u[i].children[j].0 as int] < r[i] by {
        assert(u[i].children[j] == t[i].children[j]);
    }
    assert(ranked(u, r));
}

/// Build the DOM tree from parser events.
pub fn convert_events(events: &[ParseEvent]) -> (r: DomTree)
    requires
        events@.len() < usize::MAX - 1,
    ensures
        r@ == run(events_view(events@)).0,
        is_forest(r@),
{
    let mut tree = DomTree::new();
    let mut stack: Vec<NodeId> = Vec::new();
    stack.push(tree.root());
    proof {
        law_new_tree_is_forest();
        assert(stack@ =~= seq![NodeId(0)]);
        assert(events_view(events@).take(0) =~= Seq::<EventView>::empty());
    }
    let mut i: usize = 0;
    while i < events.len()
        invariant
            i <= events.len(),
            events@.len() < usize::MAX - 1,
            (tree@, stack@) == run(events_view(events@).take(i as int)),
            tree@.len() <= i + 1,
            stack@.len() >= 1,
            forall|k: int| 0 <= k < stack@.len() ==> (#[trigger] stack@[k]).0 < tree@.len(),
            is_forest(tree@),
        decreases events.len() - i,
    {
        let ghost ev = events_view(events@);
        let ghost t0 = tree@;
        proof {
            assert(ev.take(i + 1).drop_last() =~= ev.take(i as int));
            assert(ev.take(i + 1).last() == events@[i as int]@);
        }
        let top = stack[stack.len() - 1];
        match &events[i] {
            ParseEvent::Open { tag, namespace_url, attributes } => {
                let ns = namespace_for(namespace_url.as_str());
                let el = tree.create_element(tag.as_str(), ns);
                let ghost t1 = tree@;
                proof {
                    law_create_keeps_forest(t0, KindView::Element { tag: tag@, namespace: ns });
                    assert(attrs_view(attributes@).take(0) =~= Seq::<(Seq<char>, Seq<char>)>::empty());
                }
                let mut j: usize = 0;
                while j < attributes.len()
                    invariant
                        j <= attributes.len(),
                        tree@ == set_attrs(t1, el, attrs_view(attributes@).take(j as int)),
                    decreases attributes.len() - j,
                {
                    tree.set_attribute(el, attributes[j].0.as_str(), attributes[j].1.as_str());
                    proof {
                        let a = attrs_view(attributes@);
                        assert(a.take(j + 1).drop_last() =~= a.take(j as int));
                        assert(a.take(j + 1).last() == (attributes@[j as int].0@, attributes@[j as int].1@));
                    }
                    j = j + 1;
                }
                proof {
                    assert(attrs_view(attributes@).take(attributes@.len() as int) =~= attrs_view(attributes@));
                    lemma_set_attrs_shape(t1, el, attrs_view(attributes@));
                    lemma_same_children_forest(t1, tree@);
                    assert(tree@[el.0 as int].children == t1[el.0 as int].children);
                    law_append_leaf_keeps_forest(tree@, top, el);
                }
                tree.append_child(top, el);
                stack.push(el);
            },
            ParseEvent::Close => {
                if stack.len() > 1 {
                    stack.pop();
                    proof {
                        assert(stack@ =~= run(ev.take(i as int)).1.drop_last());
                    }
                }
            },
            ParseEvent::Text(s) => {
                if !s.as_str().is_empty() {
                    let n = tree.create_text(s.as_str());
                    proof {
                        law_create_keeps_forest(t0, KindView::Text(s@));
                        law_append_leaf_keeps_forest(tree@, top, n);
                    }
                    tree.append_child(top, n);
                }
            },
            ParseEvent::Comment(s) => {
                let n = tree.create_comment(s.as_str());
                proof {
                    law_create_keeps_forest(t0, KindView::Comment(s@));
                    law_append_leaf_keeps_forest(tree@, top, n);
                }
                tree.append_child(top, n);
            },
        }
        proof {
            assert forall|k: int| 0 <= k < stack@.len() implies (#[trigger] stack@[k]).0 < tree@.len() by {
                if k < run(ev.take(i as int)).1.len() {
                    assert(stack@[k] == run(ev.take(i as int)).1[k]);
                }
            }
        }
        i = i + 1;
    }
    proof {
        assert(events_view(events@).take(events@.len() as int) =~= events_view(events@));
    }
    tree
}

/// Errors during HTML parsing.
#[derive(Debug, Clone, PartialEq, Eq)]
pub enum ParseError {
    Parse(String),
}

/// The text of a parse error.
pub open spec fn parse_error_text(e: ParseError) -> Seq<char> {
    match e {
        ParseError::Parse(m) => "parse error: "@ + m@,
    }
}

impl ParseError {
    /// The human-readable text of the error.
    pub fn message(&self) -> (r: String)
        ensures
            r@ == parse_error_text(*self),
    {
        match self {
            ParseError::Parse(m) => {
                let mut s = str_from("parse error: ");
                push_str(&mut s, m.as_str());
                s
            },
        }
    }
}

/// The first level of a parsed HTML node.
#[derive(Debug, Clone)]
pub enum NodeHead {
    /// An element, with its local name and namespace URL.
    Element { tag: String, namespace_url: String },
    /// A text node.
    Text(String),
    /// A comment.
    Comment(String),
    /// The document, a doctype or a processing instruction.
    Other,
}

/// The content of a node head.
pub enum HeadView {
    Element { tag: Seq<char>, namespace_url: Seq<char> },
    Text(Seq<char>),
    Comment(Seq<char>),
    Other,
}

impl View for NodeHead {
    type V = HeadView;

    open spec fn view(&self) -> HeadView {
        match self {
            NodeHead::Element { tag, namespace_url } => HeadView::Element { tag: tag@, namespace_url: namespace_url@ },
            NodeHead::Text(s) => HeadView::Text(s@),
            NodeHead::Comment(s) => HeadView::Comment(s@),
            NodeHead::Other => HeadView::Other,
        }
    }
}

/// A node of a parsed HTML document, in document order: the index of its
/// parent node, its first level, and its attributes (an element's, in
/// order; none for other nodes).
pub struct HtmlNode {
    pub parent: usize,
    pub head: HeadView,
    pub attrs: Seq<(Seq<char>, Seq<char>)>,
}

/// A parsed HTML node with its subtree: its first level, its attributes
/// (an element's, in order; none for other nodes) and its children.
pub struct HtmlTree {
    pub head: HeadView,
    pub attrs: Seq<(Seq<char>, Seq<char>)>,
    pub children: Seq<HtmlTree>,
}

/// What html5ever gives for a source text parsed as an HTML document: the
/// document node with its subtree, or the error of reading the text.
pub uninterp spec fn html_tree(source: Seq<char>) -> Result<HtmlTree, Seq<char>>;

/// The subtree a parsed node holds.
pub uninterp spec fn node_tree(n: RcNode) -> HtmlTree;

#[verifier::external_type_specification]
#[verifier::external_body]
pub struct ExRcNode(RcNode);

/// Parses source text as an HTML document, giving its document node.
///
/// Trusted: html5ever's `parse_document` with default options, read as
/// UTF-8 from an in-memory cursor over the text; both depend on the text
/// alone. It claims that the document node holds the subtree `html_tree`
/// names for the text, and that a read error comes back as that name's
/// error, the error's `Debug` text.
#[verifier::external_body]
fn html_parse(source: &str) -> (r: Result<Handle, String>)
    ensures
        match r {
            Ok(h) => html_tree(source@) == Ok::<HtmlTree, Seq<char>>(node_tree(*h)),
            Err(m) => html_tree(source@) == Err::<HtmlTree, Seq<char>>(m@),
        },
{
    parse_document(RcDom::default(), Default::default())
        .from_utf8()
        .read_from(&mut Cursor::new(source.as_bytes()))
        .map(|d| d.document)
        .map_err(|e| format!("{:?}", e))
}

/// The first level of a node.
///
/// Trusted: tells the `NodeData` variants apart; an element gives its
/// `QualName`'s local name and namespace, a text or comment its contents;
/// the document, a doctype and a processing instruction are `Other`.
#[verifier::external_body]
fn node_head(h: &Handle) -> (r: NodeHead)
    ensures
        r@ == node_tree(**h).head,
{
    match &h.data {
        NodeData::Element { name, .. } => NodeHead::Element { tag: name.local.to_string(), namespace_url: name.ns.to_string() },
        NodeData::Text { contents } => NodeHead::Text(contents.borrow().to_string()),
        NodeData::Comment { contents } => NodeHead::Comment(contents.to_string()),
        _ => NodeHead::Other,
    }
}

/// The attributes of a node: an element's, as local name and value, in
/// order; none for other nodes.
///
/// Trusted: reads an element's `attrs`.
#[verifier::external_body]
fn node_attrs(h: &Handle) -> (r: Vec<(String, String)>)
    ensures
        attrs_view(r@) == node_tree(**h).attrs,
{
    match &h.data {
        NodeData::Element { attrs, .. } => attrs.borrow().iter().map(|a| (a.name.local.to_string(), a.value.to_string())).collect(),
        _ => Vec::new(),
    }
}

/// The children of a node, in order.
///
/// Trusted: clones the handles in the node's `children`.
#[verifier::external_body]
fn node_children(h: &Handle) -> (r: Vec<Handle>)
    ensures
        r@.len() == node_tree(**h).children.len(),
        forall|i: int| 0 <= i < r@.len() ==> node_tree(*#[trigger] r@[i]) == node_tree(**h).children[i],
{
    h.children.borrow().clone()
}

/// The subtree under a handle.
pub open spec fn tree_at(h: &Handle) -> HtmlTree {
    node_tree(**h)
}

/// The nodes of a subtree in document order, appended to `acc`, each with
/// the index of its parent; the subtree's root goes under `parent`.
pub open spec fn flat_tree(tr: HtmlTree, parent: usize, acc: Seq<HtmlNode>) -> Seq<HtmlNode>
    decreases tr, 1nat,
{
    let me = acc.len() as usize;
    flat_children(tr.children, me, acc.push(HtmlNode { parent, head: tr.head, attrs: tr.attrs }))
}

/// The nodes of the subtrees `cs`, in order, each root under `parent`.
pub open spec fn flat_children(cs: Seq<HtmlTree>, parent: usize, acc: Seq<HtmlNode>) -> Seq<HtmlNode>
    decreases cs, 0nat,
{
    if cs.len() == 0 {
        acc
    } else {
        proof {
            assert(decreases_to!(cs => cs.last()));
            assert(cs.drop_last() =~= cs.subrange(0, cs.len() - 1));
        }
        flat_tree(cs.last(), parent, flat_children(cs.drop_last(), parent, acc))
    }
}

/// The nodes of a parsed document in document order, the document first.
pub open spec fn html_nodes(source: Seq<char>) -> Result<Seq<HtmlNode>, Seq<char>> {
    match html_tree(source) {
        Ok(tr) => Ok(flat_tree(tr, 0, Seq::empty())),
        Err(m) => Err(m),
    }
}

/// Appends the nodes of the subtree under `h`, in document order, with
/// their parent indices and attributes.
fn flatten(h: &Handle, parent: usize, shape: &mut Vec<(usize, NodeHead)>, attrs: &mut Vec<Vec<(String, String)>>)
    requires
        old(shape)@.len() == old(attrs)@.len(),
    ensures
        final(shape)@.len() == final(attrs)@.len(),
        nodes_of(final(shape)@, final(attrs)@) == flat_tree(node_tree(**h), parent, nodes_of(old(shape)@, old(attrs)@)),
    decreases node_tree(**h),
{
    let ghost tr = tree_at(h);
    let ghost acc = nodes_of(shape@, attrs@);
    let me = shape.len();
    let head = node_head(h);
    let own = node_attrs(h);
    shape.push((parent, head));
    attrs.push(own);
    let kids = node_children(h);
    let ghost start = nodes_of(shape@, attrs@);
    proof {
        assert(start =~= acc.push(HtmlNode { parent, head: tr.head, attrs: tr.attrs }));
        assert(tr.children.take(0) =~= Seq::<HtmlTree>::empty());
    }
    let mut i: usize = 0;
    while i < kids.len()
        invariant
            i <= kids.len(),
            tr == node_tree(**h),
            kids@.len() == tr.children.len(),
            forall|k: int| 0 <= k < kids@.len() ==> node_tree(*#[trigger] kids@[k]) == tr.children[k],
            shape@.len() == attrs@.len(),
            nodes_of(shape@, attrs@) == flat_children(tr.children.take(i as int), me, start),
        decreases kids.len() - i,
    {
        proof {
            assert(tr.children.take(i + 1).drop_last() =~= tr.children.take(i as int));
            assert(tr.children.take(i + 1).last() == tr.children[i as int]);
            assert(node_tree(*kids@[i as int]) == tr.children[i as int]);
            assert(decreases_to!(tr => tr.children));
            assert(decreases_to!(tr.children => tr.children[i as int]));
        }
        flatten(&kids[i], me, shape, attrs);
        i = i + 1;
    }
    proof {
        assert(tr.children.take(kids@.len() as int) =~= tr.children);
        assert(acc.len() == me);
    }
}

/// One parsed node added to the tree. `ids` maps each earlier node to the
/// tree node that stands for it: an element, a non-empty text or a comment
/// is a new node appended to its parent's node (attributes set first);
/// anything else adds nothing, and its children go to its parent's node.
/// A parent index that is not an earlier node means the document.
pub open spec fn flat_step(t: Seq<NodeView>, ids: Seq<NodeId>, e: HtmlNode) -> (Seq<NodeView>, Seq<NodeId>) {
    let parent = if e.parent < ids.len() { ids[e.parent as int] } else { NodeId(0) };
    let id = NodeId(t.len() as usize);
    match e.head {
        HeadView::Element { tag, namespace_url } => {
            let t1 = t.push(fresh_node(t.len() as int, KindView::Element { tag, namespace: ns_of(namespace_url) }));
            (spec_append(set_attrs(t1, id, e.attrs), parent, id), ids.push(id))
        },
        HeadView::Text(s) => if s.len() == 0 {
            (t, ids.push(parent))
        } else {
            (add_under(t, parent, KindView::Text(s)), ids.push(id))
        },
        HeadView::Comment(s) => (add_under(t, parent, KindView::Comment(s)), ids.push(id)),
        HeadView::Other => (t, ids.push(parent)),
    }
}

/// The tree built from parsed nodes, and the tree node of each.
pub open spec fn flat_run(ns: Seq<HtmlNode>) -> (Seq<NodeView>, Seq<NodeId>)
    decreases ns.len(),
{
    if ns.len() == 0 {
        (seq![fresh_node(0, KindView::Document)], Seq::empty())
    } else {
        let (t, ids) = flat_run(ns.drop_last());
        flat_step(t, ids, ns.last())
    }
}

/// The parsed nodes given by their shapes and attributes.
pub open spec fn nodes_of(shape: Seq<(usize, NodeHead)>, attrs: Seq<Vec<(String, String)>>) -> Seq<HtmlNode> {
    Seq::new(shape.len(), |i: int| HtmlNode { parent: shape[i].0, head: shape[i].1@, attrs: attrs_view(attrs[i]@) })
}

/// Build the DOM tree from the nodes of a parsed document.
pub fn build_from_nodes(shape: &[(usize, NodeHead)], attrs: &[Vec<(String, String)>]) -> (r: DomTree)
    requires
        shape@.len() == attrs@.len(),
        shape@.len() < usize::MAX - 1,
    ensures
        r@ == flat_run(nodes_of(shape@, attrs@)).0,
        is_forest(r@),
{
    let ghost ns = nodes_of(shape@, attrs@);
    let mut tree = DomTree::new();
    let mut ids: Vec<NodeId> = Vec::new();
    proof {
        law_new_tree_is_forest();
        assert(ns.take(0) =~= Seq::<HtmlNode>::empty());
        assert(ids@ =~= Seq::<NodeId>::empty());
    }
    let mut i: usize = 0;
    while i < shape.len()
        invariant
            i <= shape.len(),
            shape@.len() == attrs@.len(),
            shape@.len() < usize::MAX - 1,
            ns == nodes_of(shape@, attrs@),
            (tree@, ids@) == flat_run(ns.take(i as int)),
            tree@.len() <= i + 1,
            tree@.len() >= 1,
            ids@.len() == i,
            forall|k: int| 0 <= k < ids@.len() ==> (#[trigger] ids@[k]).0 < tree@.len(),
            is_forest(tree@),
        decreases shape.len() - i,
    {
        let ghost t0 = tree@;
        let ghost ids0 = ids@;
        proof {
            assert(ns.take(i + 1).drop_last() =~= ns.take(i as int));
            assert(ns.take(i + 1).last() == ns[i as int]);
        }
        let p = shape[i].0;
        let parent = if p < i { ids[p] } else { NodeId(0) };
        assert(parent.0 < t0.len());
        match &shape[i].1 {
            NodeHead::Element { tag, namespace_url } => {
                let ns_kind = namespace_for(namespace_url.as_str());
                let el = tree.create_element(tag.as_str(), ns_kind);
                let ghost t1 = tree@;
                let a = &attrs[i];
                proof {
                    law_create_keeps_forest(t0, KindView::Element { tag: tag@, namespace: ns_kind });
                    assert(attrs_view(a@).take(0) =~= Seq::<(Seq<char>, Seq<char>)>::empty());
                }
                let mut j: usize = 0;
                while j < a.len()
                    invariant
                        j <= a.len(),
                        tree@ == set_attrs(t1, el, attrs_view(a@).take(j as int)),
                    decreases a.len() - j,
                {
                    tree.set_attribute(el, a[j].0.as_str(), a[j].1.as_str());
                    proof {
                        let av = attrs_view(a@);
                        assert(av.take(j + 1).drop_last() =~= av.take(j as int));
                        assert(av.take(j + 1).last() == (a@[j as int].0@, a@[j as int].1@));
                    }
                    j = j + 1;
                }
                proof {
                    assert(attrs_view(a@).take(a@.len() as int) =~= attrs_view(a@));
                    lemma_set_attrs_shape(t1, el, attrs_view(a@));
                    lemma_same_children_forest(t1, tree@);
                    assert(tree@[el.0 as int].children == t1[el.0 as int].children);
                    law_append_leaf_keeps_forest(tree@, parent, el);
                }
                tree.append_child(parent, el);
                ids.push(el);
            },
            NodeHead::Text(s) => {
                if !s.as_str().is_empty() {
                    let n = tree.create_text(s.as_str());
                    proof {
                        law_create_keeps_forest(t0, KindView::Text(s@));
                        law_append_leaf_keeps_forest(tree@, parent, n);
                    }
                    tree.append_child(parent, n);
                    ids.push(n);
                } else {
                    ids.push(parent);
                }
            },
            NodeHead::Comment(s) => {
                let n = tree.create_comment(s.as_str());
                proof {
                    law_create_keeps_forest(t0, KindView::Comment(s@));
                    law_append_leaf_keeps_forest(tree@, parent, n);
                }
                tree.append_child(parent, n);
                ids.push(n);
            },
            NodeHead::Other => {
                ids.push(parent);
            },
        }
        proof {
            assert forall|k: int| 0 <= k < ids@.len() implies (#[trigger] ids@[k]).0 < tree@.len() by {
                if k < ids0.len() {
                    assert(ids@[k] == ids0[k]);
                }
            }
        }
        i = i + 1;
    }
    proof {
        assert(ns.take(shape@.len() as int) =~= ns);
    }
    tree
}

/// What `parse_html` gives for a source text.
pub open spec fn parse_result(source: Seq<char>, r: Result<DomTree, ParseError>) -> bool {
    match html_nodes(source) {
        Err(m) => r matches Err(ParseError::Parse(e)) && e@ == m,
        Ok(ns) => if ns.len() < usize::MAX - 1 {
            r matches Ok(t) && t@ == flat_run(ns).0 && is_forest(t@)
        } else {
            r is Err
        },
    }
}

/// Parse HTML source into a DOM tree: html5ever parses it (with implied
/// tags, error recovery and namespaces), and the tree is built from the
/// parsed document's nodes.
pub fn parse_html(source: &str) -> (r: Result<DomTree, ParseError>)
    ensures
        parse_result(source@, r),
{
    let doc = match html_parse(source) {
        Ok(h) => h,
        Err(m) => return Err(ParseError::Parse(m)),
    };
    let mut shape: Vec<(usize, NodeHead)> = Vec::new();
    let mut attrs: Vec<Vec<(String, String)>> = Vec::new();
    proof {
        assert(nodes_of(shape@, attrs@) =~= Seq::<HtmlNode>::empty());
    }
    flatten(&doc, 0, &mut shape, &mut attrs);
    if shape.len() >= usize::MAX - 1 {
        return Err(ParseError::Parse(str_from("document too large")));
    }
    let tree = build_from_nodes(shape.as_slice(), attrs.as_slice());
    Ok(tree)
}

} // verus!
