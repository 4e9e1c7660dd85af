//! The DOM tree — the structural truth of a web page.
//!
//! Nodes live in a vector and are addressed by their index, which stays
//! stable for the lifetime of the tree. Node 0 is the document root.
use vstd::prelude::*;
use crate::text::{str_eq, str_from};

verus! {

/// Node identifier — stable for the lifetime of the tree.
#[derive(Debug, Clone, Copy, PartialEq, Eq, Hash, Structural)]
pub struct NodeId(pub usize);

/// Which namespace an element belongs to.
#[derive(Debug, Clone, Copy, PartialEq, Eq, Hash, Structural)]
pub enum Namespace {
    Html,
    Svg,
    MathMl,
}

/// What kind of node this is.
#[derive(Debug, Clone, PartialEq)]
pub enum NodeKind {
    /// The root document node.
    Document,
    /// An HTML element.
    Element { tag_name: String, namespace: Namespace },
    /// A text node.
    Text { content: String },
    /// A comment node.
    Comment { content: String },
}

/// A node in the DOM tree. Attributes are name/value pairs; a name occurs at
/// most once through `set_attribute`.
#[derive(Debug, Clone)]
pub struct Node {
    pub id: NodeId,
    pub kind: NodeKind,
    pub parent: Option<NodeId>,
    pub children: Vec<NodeId>,
    pub attributes: Vec<(String, String)>,
}

/// The DOM tree — structural truth of a web page.
#[derive(Debug)]
pub struct DomTree {
    nodes: Vec<Node>,
}

/// The content of a node kind.
pub enum KindView {
    Document,
    Element { tag: Seq<char>, namespace: Namespace },
    Text(Seq<char>),
    Comment(Seq<char>),
}

/// The content of a node.
pub struct NodeView {
    pub id: NodeId,
    pub kind: KindView,
    pub parent: Option<NodeId>,
    pub children: Seq<NodeId>,
    pub attrs: Seq<(Seq<char>, Seq<char>)>,
}

impl View for NodeKind {
    type V = KindView;

    open spec fn view(&self) -> KindView {
        match self {
            NodeKind::Document => KindView::Document,
            NodeKind::Element { tag_name, namespace } => KindView::Element { tag: tag_name@, namespace: *namespace },
            NodeKind::Text { content } => KindView::Text(content@),
            NodeKind::Comment { content } => KindView::Comment(content@),
        }
    }
}

/// The content of an attribute list.
pub open spec fn attrs_view(a: Seq<(String, String)>) -> Seq<(Seq<char>, Seq<char>)> {
    a.map_values(|p: (String, String)| (p.0@, p.1@))
}

impl View for Node {
    type V = NodeView;

    open spec fn view(&self) -> NodeView {
        NodeView {
            id: self.id,
            kind: self.kind@,
            parent: self.parent,
            children: self.children@,
            attrs: attrs_view(self.attributes@),
        }
    }
}

impl View for DomTree {
    type V = Seq<NodeView>;

    closed spec fn view(&self) -> Seq<NodeView> {
        self.nodes@.map_values(|n: Node| n@)
    }
}

/// The first value given to `name` in an attribute list.
pub open spec fn attr_lookup(attrs: Seq<(Seq<char>, Seq<char>)>, name: Seq<char>) -> Option<Seq<char>>
    decreases attrs.len(),
{
    if attrs.len() == 0 {
        None
    } else if attrs[0].0 == name {
        Some(attrs[0].1)
    } else {
        attr_lookup(attrs.drop_first(), name)
    }
}

/// The children of a node; none for a node that does not exist.
pub open spec fn children_of(t: Seq<NodeView>, id: NodeId) -> Seq<NodeId> {
    if id.0 < t.len() { t[id.0 as int].children } else { Seq::empty() }
}

/// The value of an attribute of a node, if both exist.
pub open spec fn attribute_of(t: Seq<NodeView>, id: NodeId, name: Seq<char>) -> Option<Seq<char>> {
    if id.0 < t.len() { attr_lookup(t[id.0 as int].attrs, name) } else { None }
}

/// The tag of a node, if it is an element.
pub open spec fn tag_of(t: Seq<NodeView>, id: NodeId) -> Option<Seq<char>> {
    if id.0 < t.len() {
        match t[id.0 as int].kind {
            KindView::Element { tag, .. } => Some(tag),
            _ => None,
        }
    } else {
        None
    }
}

/// A fresh node with the given kind, at index `i`.
pub open spec fn fresh_node(i: int, kind: KindView) -> NodeView {
    NodeView { id: NodeId(i as usize), kind, parent: None, children: Seq::empty(), attrs: Seq::empty() }
}

/// The children list with every occurrence of `c` removed.
pub open spec fn without_child(cs: Seq<NodeId>, c: NodeId) -> Seq<NodeId> {
    cs.filter(other_than(c))
}

/// The test "is not `c`".
pub open spec fn other_than(c: NodeId) -> spec_fn(NodeId) -> bool {
    |x: NodeId| x != c
}

/// The tree after `append_child(parent, child)`: the child leaves its old
/// parent's children, points to its new parent, and is added to the end of
/// the new parent's children. Each step happens only where the node it
/// touches exists.
pub open spec fn spec_append(t: Seq<NodeView>, parent: NodeId, child: NodeId) -> Seq<NodeView> {
    let t1 = if child.0 < t.len() {
        match t[child.0 as int].parent {
            Some(op) => if op.0 < t.len() {
                t.update(op.0 as int, NodeView { children: without_child(t[op.0 as int].children, child), ..t[op.0 as int] })
            } else {
                t
            },
            None => t,
        }
    } else {
        t
    };
    let t2 = if child.0 < t1.len() {
        t1.update(child.0 as int, NodeView { parent: Some(parent), ..t1[child.0 as int] })
    } else {
        t1
    };
    if parent.0 < t2.len() {
        t2.update(parent.0 as int, NodeView { children: t2[parent.0 as int].children.push(child), ..t2[parent.0 as int] })
    } else {
        t2
    }
}

/// The attribute list after setting `name` to `value`: the first pair with
/// that name gets the new value, or the pair is added at the end.
pub open spec fn attrs_set(a: Seq<(Seq<char>, Seq<char>)>, name: Seq<char>, value: Seq<char>) -> Seq<(Seq<char>, Seq<char>)>
    decreases a.len(),
{
    if a.len() == 0 {
        seq![(name, value)]
    } else if a[0].0 == name {
        a.update(0, (name, value))
    } else {
        seq![a[0]] + attrs_set(a.drop_first(), name, value)
    }
}

impl Default for DomTree {
    fn default() -> (t: Self)
        ensures
            t@ == seq![fresh_node(0, KindView::Document)],
    {
        DomTree::new()
    }
}

impl DomTree {
    /// Create a new DOM tree with a document root.
    pub fn new() -> (t: Self)
        ensures
            t@ == seq![fresh_node(0, KindView::Document)],
    {
        let root = Node {
            id: NodeId(0),
            kind: NodeKind::Document,
            parent: None,
            children: Vec::new(),
            attributes: Vec::new(),
        };
        let mut nodes: Vec<Node> = Vec::new();
        nodes.push(root);
        let t = DomTree { nodes };
        proof {
            assert(attrs_view(Seq::<(String, String)>::empty()) =~= Seq::empty());
            assert(t.nodes@[0]@ == fresh_node(0, KindView::Document));
            assert(t@ =~= seq![fresh_node(0, KindView::Document)]);
        }
        t
    }

    /// Get the root node ID.
    pub fn root(&self) -> (r: NodeId)
        ensures
            r == NodeId(0),
    {
        NodeId(0)
    }

    /// Get a node by ID.
    pub fn get(&self, id: NodeId) -> (r: Option<&Node>)
        ensures
            match r {
                Some(n) => id.0 < self@.len() && n@ == self@[id.0 as int],
                None => id.0 >= self@.len(),
            },
    {
        if id.0 < self.nodes.len() {
            Some(&self.nodes[id.0])
        } else {
            None
        }
    }

    /// Get the number of nodes.
    pub fn len(&self) -> (r: usize)
        ensures
            r == self@.len(),
    {
        self.nodes.len()
    }

    /// Check if the tree is empty.
    pub fn is_empty(&self) -> (r: bool)
        ensures
            r == (self@.len() == 0),
    {
        self.nodes.len() == 0
    }

    /// Get children of a node.
    pub fn children(&self, id: NodeId) -> (r: &[NodeId])
        ensures
            r@ == children_of(self@, id),
    {
        if id.0 < self.nodes.len() {
            self.nodes[id.0].children.as_slice()
        } else {
            &[]
        }
    }

    /// Get the parent of a node.
    pub fn parent(&self, id: NodeId) -> (r: Option<NodeId>)
        ensures
            r == (if id.0 < self@.len() { self@[id.0 as int].parent } else { None }),
    {
        if id.0 < self.nodes.len() {
            self.nodes[id.0].parent
        } else {
            None
        }
    }

    /// Get a mutable node by ID.
    pub fn get_mut(&mut self, id: NodeId) -> (r: Option<&mut Node>)
        ensures
            match r {
                Some(n) => id.0 < old(self)@.len() && (*n)@ == old(self)@[id.0 as int]
                    && final(self)@ == old(self)@.update(id.0 as int, (*final(n))@),
                None => id.0 >= old(self)@.len() && final(self)@ == old(self)@,
            },
    {
        if id.0 < self.nodes.len() {
            Some(&mut self.nodes[id.0])
        } else {
            None
        }
    }

    /// Add a node of the given kind at the end.
    fn push_node(&mut self, kind: NodeKind) -> (id: NodeId)
        requires
            old(self)@.len() < usize::MAX,
        ensures
            id.0 == old(self)@.len(),
            final(self)@ == old(self)@.push(fresh_node(id.0 as int, kind@)),
    {
        let id = NodeId(self.nodes.len());
        let node = Node { id, kind, parent: None, children: Vec::new(), attributes: Vec::new() };
        self.nodes.push(node);
        proof {
            assert(attrs_view(Seq::<(String, String)>::empty()) =~= Seq::empty());
            assert(self@ =~= old(self)@.push(fresh_node(id.0 as int, node.kind@)));
        }
        id
    }

    /// Create a new element node.
    pub fn create_element(&mut self, tag_name: &str, namespace: Namespace) -> (id: NodeId)
        requires
            old(self)@.len() < usize::MAX,
        ensures
            id.0 == old(self)@.len(),
            final(self)@ == old(self)@.push(fresh_node(id.0 as int, KindView::Element { tag: tag_name@, namespace })),
    {
        self.push_node(NodeKind::Element { tag_name: str_from(tag_name), namespace })
    }

    /// Create a new text node.
    pub fn create_text(&mut self, content: &str) -> (id: NodeId)
        requires
            old(self)@.len() < usize::MAX,
        ensures
            id.0 == old(self)@.len(),
            final(self)@ == old(self)@.push(fresh_node(id.0 as int, KindView::Text(content@))),
    {
        self.push_node(NodeKind::Text { content: str_from(content) })
    }

    /// Create a new comment node.
    pub fn create_comment(&mut self, content: &str) -> (id: NodeId)
        requires
            old(self)@.len() < usize::MAX,
        ensures
            id.0 == old(self)@.len(),
            final(self)@ == old(self)@.push(fresh_node(id.0 as int, KindView::Comment(content@))),
    {
        self.push_node(NodeKind::Comment { content: str_from(content) })
    }
}

/// A copy of a node kind.
fn copy_kind(k: &NodeKind) -> (r: NodeKind)
    ensures
        r@ == k@,
{
    match k {
        NodeKind::Document => NodeKind::Document,
        NodeKind::Element { tag_name, namespace } => NodeKind::Element {
            tag_name: str_from(tag_name.as_str()),
            namespace: *namespace,
        },
        NodeKind::Text { content } => NodeKind::Text { content: str_from(content.as_str()) },
        NodeKind::Comment { content } => NodeKind::Comment { content: str_from(content.as_str()) },
    }
}

/// A copy of a node.
fn copy_node(n: &Node) -> (r: Node)
    ensures
        r@ == n@,
{
    let mut children: Vec<NodeId> = Vec::new();
    let mut i: usize = 0;
    while i < n.children.len()
        invariant
            i <= n.children.len(),
            children@ == n.children@.take(i as int),
        decreases n.children.len() - i,
    {
        children.push(n.children[i]);
        proof {
            assert(n.children@.take(i + 1) =~= n.children@.take(i as int).push(n.children@[i as int]));
        }
        i = i + 1;
    }
    let mut attributes: Vec<(String, String)> = Vec::new();
    let mut j: usize = 0;
    while j < n.attributes.len()
        invariant
            j <= n.attributes.len(),
            attrs_view(attributes@) == attrs_view(n.attributes@.take(j as int)),
        decreases n.attributes.len() - j,
    {
        let pair = (str_from(n.attributes[j].0.as_str()), str_from(n.attributes[j].1.as_str()));
        let ghost before = attributes@;
        attributes.push(pair);
        proof {
            assert(attributes@ =~= before.push(pair));
            assert(attrs_view(attributes@) =~= attrs_view(before).push((pair.0@, pair.1@)));
            assert(n.attributes@.take(j + 1) =~= n.attributes@.take(j as int).push(n.attributes@[j as int]));
            assert(attrs_view(n.attributes@.take(j + 1)) =~= attrs_view(n.attributes@.take(j as int)).push(
                (n.attributes@[j as int].0@, n.attributes@[j as int].1@),
            ));
        }
        j = j + 1;
    }
    proof {
        assert(n.children@.take(n.children@.len() as int) =~= n.children@);
        assert(n.attributes@.take(n.attributes@.len() as int) =~= n.attributes@);
    }
    Node { id: n.id, kind: copy_kind(&n.kind), parent: n.parent, children, attributes }
}

impl Clone for DomTree {
    /// A copy of the tree: the same nodes, in the same order.
    fn clone(&self) -> (r: Self)
        ensures
            r@ == self@,
    {
        let mut nodes: Vec<Node> = Vec::new();
        let mut i: usize = 0;
        while i < self.nodes.len()
            invariant
                i <= self.nodes.len(),
                nodes@.map_values(|n: Node| n@) == self.nodes@.take(i as int).map_values(|n: Node| n@),
            decreases self.nodes.len() - i,
        {
            let c = copy_node(&self.nodes[i]);
            let ghost before = nodes@;
            nodes.push(c);
            proof {
                assert(nodes@ =~= before.push(c));
                assert(nodes@.map_values(|n: Node| n@) =~= before.map_values(|n: Node| n@).push(c@));
                assert(self.nodes@.take(i + 1) =~= self.nodes@.take(i as int).push(self.nodes@[i as int]));
                assert(self.nodes@.take(i + 1).map_values(|n: Node| n@) =~= self.nodes@.take(i as int).map_values(
                    |n: Node| n@,
                ).push(self.nodes@[i as int]@));
            }
            i = i + 1;
        }
        proof {
            assert(self.nodes@.take(self.nodes@.len() as int) =~= self.nodes@);
        }
        DomTree { nodes }
    }
}

/// The children list without `c`, in order.
fn without(cs: &Vec<NodeId>, c: NodeId) -> (r: Vec<NodeId>)
    ensures
        r@ == without_child(cs@, c),
{
    let mut r: Vec<NodeId> = Vec::new();
    let mut i: usize = 0;
    while i < cs.len()
        invariant
            i <= cs.len(),
            r@ == without_child(cs@.take(i as int), c),
        decreases cs.len() - i,
    {
        proof {
            reveal(Seq::filter);
            assert(cs@.take(i + 1).drop_last() =~= cs@.take(i as int));
        }
        if cs[i] != c {
            r.push(cs[i]);
        }
        i = i + 1;
    }
    proof {
        assert(cs@.take(cs@.len() as int) =~= cs@);
    }
    r
}

/// Index of the first pair named `name`, if any.
fn find_attr(attrs: &Vec<(String, String)>, name: &str) -> (r: Option<usize>)
    ensures
        match r {
            Some(i) => i < attrs@.len() && attrs@[i as int].0@ == name@
                && forall|j: int| 0 <= j < i ==> attrs@[j].0@ != name@,
            None => forall|j: int| 0 <= j < attrs@.len() ==> attrs@[j].0@ != name@,
        },
{
    let mut i: usize = 0;
    while i < attrs.len()
        invariant
            i <= attrs.len(),
            forall|j: int| 0 <= j < i ==> attrs@[j].0@ != name@,
        decreases attrs.len() - i,
    {
        if str_eq(attrs[i].0.as_str(), name) {
            return Some(i);
        }
        i = i + 1;
    }
    None
}

/// Lookup finds the first pair with the name.
proof fn lemma_attr_lookup_first(a: Seq<(Seq<char>, Seq<char>)>, name: Seq<char>, i: int)
    requires
        0 <= i <= a.len(),
        forall|j: int| 0 <= j < i ==> a[j].0 != name,
    ensures
        i < a.len() && a[i].0 == name ==> attr_lookup(a, name) == Some(a[i].1),
        i == a.len() ==> attr_lookup(a, name) == None::<Seq<char>>,
        i < a.len() && a[i].0 == name ==> attrs_set(a, name, a[i].1) == a,
    decreases i,
{
    if i > 0 {
        assert forall|j: int| 0 <= j < i - 1 implies a.drop_first()[j].0 != name by {
            assert(a.drop_first()[j] == a[j + 1]);
        }
        lemma_attr_lookup_first(a.drop_first(), name, i - 1);
        if i < a.len() && a[i].0 == name {
            assert(a.drop_first()[i - 1] == a[i]);
            assert(seq![a[0]] + a.drop_first() =~= a);
        }
    } else {
        if a.len() > 0 && a[0].0 == name {
            assert(a.update(0, (name, a[0].1)) =~= a);
        }
    }
}

/// Setting replaces the first pair with the name, or appends one.
proof fn lemma_attrs_set_shape(a: Seq<(Seq<char>, Seq<char>)>, name: Seq<char>, value: Seq<char>, i: int)
    requires
        0 <= i <= a.len(),
        forall|j: int| 0 <= j < i ==> a[j].0 != name,
        i < a.len() ==> a[i].0 == name,
    ensures
        attrs_set(a, name, value) == (if i < a.len() { a.update(i, (name, value)) } else { a.push((name, value)) }),
    decreases i,
{
    if i > 0 {
        assert forall|j: int| 0 <= j < i - 1 implies a.drop_first()[j].0 != name by {
            assert(a.drop_first()[j] == a[j + 1]);
        }
        if i < a.len() {
            assert(a.drop_first()[i - 1] == a[i]);
        }
        lemma_attrs_set_shape(a.drop_first(), name, value, i - 1);
        if i < a.len() {
            assert(seq![a[0]] + a.drop_first().update(i - 1, (name, value)) =~= a.update(i, (name, value)));
        } else {
            assert(seq![a[0]] + a.drop_first().push((name, value)) =~= a.push((name, value)));
        }
    } else if a.len() == 0 {
        assert(seq![(name, value)] =~= a.push((name, value)));
    }
}

impl DomTree {
    /// Append a child to a parent node: the child leaves its old parent and
    /// goes to the end of the new parent's children.
    pub fn append_child(&mut self, parent: NodeId, child: NodeId)
        ensures
            final(self)@ == spec_append(old(self)@, parent, child),
    {
        let ghost t = self@;
        let n = self.nodes.len();
        if child.0 < n {
            match self.nodes[child.0].parent {
                Some(op) => {
                    if op.0 < n {
                        let kept = without(&self.nodes[op.0].children, child);
                        self.nodes[op.0].children = kept;
                    }
                },
                None => {},
            }
            proof {
                match t[child.0 as int].parent {
                    Some(op) => {
                        if op.0 < n {
                            assert(self@ =~= t.update(op.0 as int, NodeView {
                                children: without_child(t[op.0 as int].children, child),
                                ..t[op.0 as int]
                            }));
                        } else {
                            assert(self@ =~= t);
                        }
                    },
                    None => {
                        assert(self@ =~= t);
                    },
                }
            }
            self.nodes[child.0].parent = Some(parent);
        }
        let ghost t2 = self@;
        if parent.0 < n {
            self.nodes[parent.0].children.push(child);
            proof {
                assert(self@ =~= t2.update(parent.0 as int, NodeView { children: t2[parent.0 as int].children.push(child), ..t2[parent.0 as int] }));
            }
        }
    }

    /// Set an attribute on a node (replacing an earlier value of the same name).
    pub fn set_attribute(&mut self, id: NodeId, name: &str, value: &str)
        ensures
            final(self)@ == (if id.0 < old(self)@.len() {
                old(self)@.update(id.0 as int, NodeView {
                    attrs: attrs_set(old(self)@[id.0 as int].attrs, name@, value@),
                    ..old(self)@[id.0 as int]
                })
            } else {
                old(self)@
            }),
    {
        if id.0 < self.nodes.len() {
            let ghost a = self.nodes@[id.0 as int].attributes@;
            let found = find_attr(&self.nodes[id.0].attributes, name);
            match found {
                Some(i) => {
                    self.nodes[id.0].attributes.set(i, (str_from(name), str_from(value)));
                    proof {
                        lemma_attrs_set_shape(attrs_view(a), name@, value@, i as int);
                        assert(attrs_view(self.nodes@[id.0 as int].attributes@) =~= attrs_view(a).update(i as int, (name@, value@)));
                    }
                },
                None => {
                    self.nodes[id.0].attributes.push((str_from(name), str_from(value)));
                    proof {
                        lemma_attrs_set_shape(attrs_view(a), name@, value@, a.len() as int);
                        assert(attrs_view(self.nodes@[id.0 as int].attributes@) =~= attrs_view(a).push((name@, value@)));
                    }
                },
            }
            proof {
                assert(self@ =~= old(self)@.update(id.0 as int, NodeView {
                    attrs: attrs_set(old(self)@[id.0 as int].attrs, name@, value@),
                    ..old(self)@[id.0 as int]
                }));
            }
        }
    }

    /// Get an attribute from a node.
    pub fn get_attribute(&self, id: NodeId, name: &str) -> (r: Option<&str>)
        ensures
            match r {
                Some(v) => attribute_of(self@, id, name@) == Some(v@),
                None => attribute_of(self@, id, name@) == None::<Seq<char>>,
            },
    {
        if id.0 < self.nodes.len() {
            let attrs = &self.nodes[id.0].attributes;
            match find_attr(attrs, name) {
                Some(i) => {
                    proof {
                        lemma_attr_lookup_first(attrs_view(attrs@), name@, i as int);
                    }
                    Some(attrs[i].1.as_str())
                },
                None => {
                    proof {
                        lemma_attr_lookup_first(attrs_view(attrs@), name@, attrs@.len() as int);
                    }
                    None
                },
            }
        } else {
            None
        }
    }

    /// Get the tag name of an element.
    pub fn tag_name(&self, id: NodeId) -> (r: Option<&str>)
        ensures
            match r {
                Some(v) => tag_of(self@, id) == Some(v@),
                None => tag_of(self@, id) == None::<Seq<char>>,
            },
    {
        if id.0 < self.nodes.len() {
            match &self.nodes[id.0].kind {
                NodeKind::Element { tag_name, .. } => Some(tag_name.as_str()),
                _ => None,
            }
        } else {
            None
        }
    }
}

/// Setting an attribute makes it read back as the value set, and leaves every
/// other attribute of every node unchanged.
pub proof fn law_attribute_read_after_write(a: Seq<(Seq<char>, Seq<char>)>, name: Seq<char>, value: Seq<char>, other: Seq<char>)
    ensures
        attr_lookup(attrs_set(a, name, value), name) == Some(value),
        other != name ==> attr_lookup(attrs_set(a, name, value), other) == attr_lookup(a, other),
    decreases a.len(),
{
    if a.len() > 0 {
        if a[0].0 == name {
            assert(attrs_set(a, name, value).drop_first() =~= a.drop_first());
            assert(attrs_set(a, name, value)[0] == (name, value));
        } else {
            law_attribute_read_after_write(a.drop_first(), name, value, other);
            assert((seq![a[0]] + attrs_set(a.drop_first(), name, value)).drop_first() =~= attrs_set(a.drop_first(), name, value));
        }
    } else {
        assert(seq![(name, value)].drop_first() =~= Seq::<(Seq<char>, Seq<char>)>::empty());
        assert(attr_lookup(Seq::<(Seq<char>, Seq<char>)>::empty(), other) == None::<Seq<char>>);
    }
}

/// `r` ranks the nodes so that every child that exists ranks below its parent.
pub open spec fn ranked(t: Seq<NodeView>, r: Seq<nat>) -> bool {
    &&& r.len() == t.len()
    &&& forall|i: int, j: int|
        0 <= i < t.len() && 0 <= j < t[i].children.len() && (#[trigger] t[i].children[j]).0 < t.len()
            ==> r[t[i].children[j].0 as int] < r[i]
}

/// The children relation has no cycle: following children from any node
/// always stops.
pub open spec fn is_forest(t: Seq<NodeView>) -> bool {
    exists|r: Seq<nat>| ranked(t, r)
}

/// A ranking witnessing that the tree is a forest.
pub open spec fn forest_rank(t: Seq<NodeView>) -> Seq<nat> {
    choose|r: Seq<nat>| ranked(t, r)
}

/// `r` ranks the nodes it gives a positive rank so that every child that
/// exists of such a node has a smaller positive rank: following children
/// from a ranked node always stops. Nodes ranked 0 are left out.
pub open spec fn partly_ranked(t: Seq<NodeView>, r: Seq<nat>) -> bool {
    &&& r.len() == t.len()
    &&& forall|i: int, j: int|
        0 <= i < t.len() && r[i] > 0 && 0 <= j < t[i].children.len() && (#[trigger] t[i].children[j]).0 < t.len()
            ==> 0 < r[t[i].children[j].0 as int] < r[i]
}

/// Following children from `id` always stops: the subtree under `id` has no
/// cycle, whatever the rest of the tree holds.
pub open spec fn forest_at(t: Seq<NodeView>, id: NodeId) -> bool {
    id.0 < t.len() && exists|r: Seq<nat>| partly_ranked(t, r) && r[id.0 as int] > 0
}

/// A ranking witnessing `forest_at(t, id)`.
pub open spec fn rank_at(t: Seq<NodeView>, id: NodeId) -> Seq<nat> {
    choose|r: Seq<nat>| partly_ranked(t, r) && r[id.0 as int] > 0
}

/// Whether `text_content` answers for `id`: a node that does not exist, a
/// text node, or a node whose subtree has no cycle.
pub open spec fn text_defined(t: Seq<NodeView>, id: NodeId) -> bool {
    ||| id.0 >= t.len()
    ||| t[id.0 as int].kind is Text
    ||| forest_at(t, id)
}

/// The text under a node, following children along the ranking `r`: its own
/// text, or the concatenated text of its descendants in document order.
pub open spec fn text_under(t: Seq<NodeView>, r: Seq<nat>, id: NodeId) -> Seq<char>
    decreases r[id.0 as int], 1nat, 0nat
    when partly_ranked(t, r) && id.0 < t.len() && r[id.0 as int] > 0
{
    match t[id.0 as int].kind {
        KindView::Text(c) => c,
        _ => text_under_list(t, r, t[id.0 as int].children, id),
    }
}

/// The text of the children `cs` (a prefix of `p`'s children).
pub open spec fn text_under_list(t: Seq<NodeView>, r: Seq<nat>, cs: Seq<NodeId>, p: NodeId) -> Seq<char>
    decreases r[p.0 as int], 0nat, cs.len()
    when partly_ranked(t, r) && p.0 < t.len() && r[p.0 as int] > 0 && cs.len() <= t[p.0 as int].children.len()
        && cs == t[p.0 as int].children.take(cs.len() as int)
{
    if cs.len() == 0 {
        Seq::empty()
    } else {
        let c = cs.last();
        let before = text_under_list(t, r, cs.drop_last(), p);
        if c.0 < t.len() {
            proof {
                assert(c == t[p.0 as int].children[cs.len() - 1]);
            }
            before + text_under(t, r, c)
        } else {
            before
        }
    }
}

/// The text content of a node: its own text, or the concatenated text of its
/// descendants in document order; nothing for a node that does not exist.
pub open spec fn text_of(t: Seq<NodeView>, id: NodeId) -> Seq<char> {
    if id.0 >= t.len() {
        Seq::empty()
    } else {
        match t[id.0 as int].kind {
            KindView::Text(c) => c,
            _ => text_under(t, rank_at(t, id), id),
        }
    }
}

/// In a forest, the subtree under every node has no cycle.
pub proof fn lemma_forest_at(t: Seq<NodeView>, id: NodeId)
    requires
        is_forest(t),
        id.0 < t.len(),
    ensures
        forest_at(t, id),
{
    let r = forest_rank(t);
    assert(ranked(t, r));
    let r2 = Seq::new(t.len(), |i: int| r[i] + 1);
    assert forall|i: int, j: int|
        0 <= i < t.len() && r2[i] > 0 && 0 <= j < t[i].children.len() && (#[trigger] t[i].children[j]).0 < t.len()
            implies 0 < r2[t[i].children[j].0 as int] < r2[i] by {
        assert(r[t[i].children[j].0 as int] < r[i]);
    }
    assert(partly_ranked(t, r2) && r2[id.0 as int] > 0);
}

impl DomTree {
    /// Get the text content of a node (concatenated text of all descendant
    /// text nodes).
    pub fn text_content(&self, id: NodeId) -> (s: String)
        requires
            is_forest(self@) || text_defined(self@, id),
        ensures
            s@ == text_of(self@, id),
    {
        let mut text = String::new();
        if id.0 < self.nodes.len() {
            match &self.nodes[id.0].kind {
                NodeKind::Text { content } => {
                    text.append(content.as_str());
                    return text;
                },
                _ => {},
            }
            proof {
                if is_forest(self@) {
                    lemma_forest_at(self@, id);
                }
            }
            self.collect_text(id, &mut text, Ghost(rank_at(self@, id)));
        }
        text
    }

    fn collect_text(&self, id: NodeId, text: &mut String, Ghost(r): Ghost<Seq<nat>>)
        requires
            partly_ranked(self@, r),
            id.0 < self@.len(),
            r[id.0 as int] > 0,
        ensures
            final(text)@ == old(text)@ + text_under(self@, r, id),
        decreases r[id.0 as int],
    {
        match &self.nodes[id.0].kind {
            NodeKind::Text { content } => {
                text.append(content.as_str());
            },
            _ => {
                let children = &self.nodes[id.0].children;
                let ghost t = self@;
                let ghost start = text@;
                proof {
                    assert(children@ == t[id.0 as int].children);
                    assert(children@.take(0) =~= Seq::<NodeId>::empty());
                }
                let mut i: usize = 0;
                while i < children.len()
                    invariant
                        i <= children.len(),
                        t == self@,
                        partly_ranked(t, r),
                        id.0 < t.len(),
                        r[id.0 as int] > 0,
                        children@ == t[id.0 as int].children,
                        text@ == start + text_under_list(t, r, children@.take(i as int), id),
                    decreases children.len() - i,
                {
                    let c = children[i];
                    proof {
                        assert(children@.take(i + 1).drop_last() =~= children@.take(i as int));
                        assert(children@.take(i + 1).last() == c);
                        assert(children@.take(i + 1) == t[id.0 as int].children.take(i + 1));
                        assert(t[id.0 as int].children[i as int] == c);
                    }
                    if c.0 < self.nodes.len() {
                        self.collect_text(c, text, Ghost(r));
                    }
                    proof {
                        assert(text@ =~= start + text_under_list(t, r, children@.take(i + 1), id));
                    }
                    i = i + 1;
                }
                proof {
                    assert(children@.take(children@.len() as int) =~= children@);
                }
            },
        }
    }
}

/// One step up the parent chain; a missing node ends the chain.
pub open spec fn parent_step(t: Seq<NodeView>, o: Option<NodeId>) -> Option<NodeId> {
    match o {
        Some(p) => if p.0 < t.len() { t[p.0 as int].parent } else { None },
        None => None,
    }
}

/// The node `k` steps up the parent chain from `start`.
pub open spec fn ancestor_at(t: Seq<NodeView>, start: Option<NodeId>, k: nat) -> Option<NodeId>
    decreases k,
{
    if k == 0 {
        start
    } else {
        parent_step(t, ancestor_at(t, start, (k - 1) as nat))
    }
}

/// Following parents from `start` eventually stops.
pub open spec fn chain_ends(t: Seq<NodeView>, start: Option<NodeId>) -> bool {
    exists|k: nat| #[trigger] ancestor_at(t, start, k) is None
}

/// No node is its own ancestor: every parent chain stops.
pub open spec fn parents_acyclic(t: Seq<NodeView>) -> bool {
    forall|i: int| 0 <= i < t.len() ==> chain_ends(t, #[trigger] t[i].parent)
}

proof fn lemma_none_stays(t: Seq<NodeView>, start: Option<NodeId>, a: nat, b: nat)
    requires
        a <= b,
        ancestor_at(t, start, a) is None,
    ensures
        ancestor_at(t, start, b) is None,
    decreases b - a,
{
    if a < b {
        lemma_none_stays(t, start, a, (b - 1) as nat);
    }
}

proof fn lemma_periodic(t: Seq<NodeView>, start: Option<NodeId>, m1: nat, m2: nat, j: nat)
    requires
        ancestor_at(t, start, m1) == ancestor_at(t, start, m2),
    ensures
        ancestor_at(t, start, m1 + j) == ancestor_at(t, start, m2 + j),
    decreases j,
{
    if j > 0 {
        lemma_periodic(t, start, m1, m2, (j - 1) as nat);
        assert(ancestor_at(t, start, m1 + j) == parent_step(t, ancestor_at(t, start, (m1 + j - 1) as nat)));
        assert(ancestor_at(t, start, m2 + j) == parent_step(t, ancestor_at(t, start, (m2 + j - 1) as nat)));
    }
}

/// A chain that comes back to a node it visited never stops.
proof fn lemma_cycle_never_ends(t: Seq<NodeView>, start: Option<NodeId>, m1: nat, m2: nat, k: nat)
    requires
        m1 < m2,
        ancestor_at(t, start, m1) == ancestor_at(t, start, m2),
        ancestor_at(t, start, m2) is Some,
    ensures
        ancestor_at(t, start, k) is Some,
    decreases k,
{
    if k <= m2 {
        if ancestor_at(t, start, k) is None {
            lemma_none_stays(t, start, k, m2);
        }
    } else {
        let j = (k - m2) as nat;
        lemma_periodic(t, start, m1, m2, j);
        lemma_cycle_never_ends(t, start, m1, m2, (m1 + j) as nat);
    }
}

impl DomTree {
    /// Whether the parent chain from `start` stops, visiting each node at most
    /// once.
    fn chain_stops(&self, start: Option<NodeId>) -> (r: bool)
        ensures
            r == chain_ends(self@, start),
    {
        let n = self.nodes.len();
        let mut visited: Vec<bool> = Vec::new();
        let mut z: usize = 0;
        while z < n
            invariant
                z <= n,
                visited@.len() == z,
                forall|j: int| 0 <= j < z ==> !visited@[j],
            decreases n - z,
        {
            visited.push(false);
            z = z + 1;
        }
        let ghost t = self@;
        let mut current = start;
        let ghost mut k: nat = 0;
        let ghost mut seen: Set<int> = Set::empty();
        loop
            invariant
                t == self@,
                n == t.len(),
                visited@.len() == n,
                current == ancestor_at(t, start, k),
                forall|j: int| 0 <= j < n ==> (visited@[j] <==> seen.contains(j)),
                seen.finite(),
                seen.len() == k,
                seen.subset_of(vstd::set_lib::set_int_range(0, n as int)),
                forall|j: int| #[trigger] seen.contains(j) ==> exists|m: nat| m < k && ancestor_at(t, start, m) == Some(NodeId(j as usize)),
            decreases n - k,
        {
            proof {
                vstd::set_lib::lemma_int_range(0, n as int);
                vstd::set_lib::lemma_len_subset(seen, vstd::set_lib::set_int_range(0, n as int));
            }
            match current {
                None => {
                    return true;
                },
                Some(id) => {
                    if id.0 >= n {
                        proof {
                            assert(ancestor_at(t, start, k + 1) is None);
                        }
                        return true;
                    }
                    if visited[id.0] {
                        proof {
                            assert(seen.contains(id.0 as int));
                            let m = choose|m: nat| m < k && ancestor_at(t, start, m) == Some(NodeId(id.0 as usize));
                            assert forall|q: nat| !(#[trigger] ancestor_at(t, start, q) is None) by {
                                lemma_cycle_never_ends(t, start, m, k, q);
                            }
                        }
                        return false;
                    }
                    visited.set(id.0, true);
                    proof {
                        let old_seen = seen;
                        seen = seen.insert(id.0 as int);
                        assert forall|j: int| #[trigger] seen.contains(j) implies exists|m: nat| m < k + 1 && ancestor_at(t, start, m) == Some(NodeId(j as usize)) by {
                            if j == id.0 {
                                assert(ancestor_at(t, start, k) == Some(NodeId(j as usize)));
                            } else {
                                assert(old_seen.contains(j));
                            }
                        }
                        k = k + 1;
                        vstd::set_lib::lemma_int_range(0, n as int);
                        vstd::set_lib::lemma_len_subset(seen, vstd::set_lib::set_int_range(0, n as int));
                    }
                    current = self.nodes[id.0].parent;
                },
            }
        }
    }

    /// Check if the tree is acyclic (no node is its own ancestor).
    pub fn is_acyclic(&self) -> (r: bool)
        ensures
            r == parents_acyclic(self@),
    {
        let mut i: usize = 0;
        while i < self.nodes.len()
            invariant
                i <= self@.len(),
                forall|j: int| 0 <= j < i ==> chain_ends(self@, #[trigger] self@[j].parent),
            decreases self@.len() - i,
        {
            proof {
                assert(self@[i as int].parent == self.nodes@[i as int].parent);
            }
            if !self.chain_stops(self.nodes[i].parent) {
                return false;
            }
            i = i + 1;
        }
        true
    }
}

/// After `append_child(parent, child)` with both nodes present and distinct,
/// the child is the last child of the parent and points back to it.
pub proof fn law_append_links(t: Seq<NodeView>, parent: NodeId, child: NodeId)
    requires
        parent.0 < t.len(),
        child.0 < t.len(),
        parent != child,
    ensures
        children_of(spec_append(t, parent, child), parent).last() == child,
        spec_append(t, parent, child)[child.0 as int].parent == Some(parent),
        spec_append(t, parent, child).len() == t.len(),
{
}

/// A new tree is a forest.
pub proof fn law_new_tree_is_forest()
    ensures
        is_forest(seq![fresh_node(0, KindView::Document)]),
{
    let t = seq![fresh_node(0, KindView::Document)];
    assert(ranked(t, seq![0nat]));
}

/// Creating a node keeps the tree a forest.
pub proof fn law_create_keeps_forest(t: Seq<NodeView>, kind: KindView)
    requires
        is_forest(t),
    ensures
        is_forest(t.push(fresh_node(t.len() as int, kind))),
{
    let r = forest_rank(t);
    let t2 = t.push(fresh_node(t.len() as int, kind));
    assert(ranked(t, r));
    let r2 = Seq::new(t2.len(), |i: int| if i == t.len() { 0nat } else { r[i] + 1 });
    assert forall|i: int, j: int|
        0 <= i < t2.len() && 0 <= j < t2[i].children.len() && (#[trigger] t2[i].children[j]).0 < t2.len()
            implies r2[t2[i].children[j].0 as int] < r2[i] by {
        if i < t.len() {
            assert(t2[i] == t[i]);
            let c = t[i].children[j].0 as int;
            if c < t.len() {
                assert(r[c] < r[i]);
            }
        }
    }
    assert(ranked(t2, r2));
}

/// After `append_child`, a node's children are its old children, less the
/// moved child, plus the moved child at the new parent.
proof fn lemma_append_children(t: Seq<NodeView>, parent: NodeId, child: NodeId, i: int, c: NodeId)
    requires
        child.0 < t.len(),
        parent != child,
        0 <= i < t.len(),
        spec_append(t, parent, child)[i].children.contains(c),
    ensures
        t[i].children.contains(c) || (i == parent.0 && c == child),
{
    let t3 = spec_append(t, parent, child);
    let j = choose|j: int| 0 <= j < t3[i].children.len() && t3[i].children[j] == c;
    let op = t[child.0 as int].parent;
    let t1 = match op {
        Some(o) => if o.0 < t.len() {
            t.update(o.0 as int, NodeView { children: without_child(t[o.0 as int].children, child), ..t[o.0 as int] })
        } else {
            t
        },
        None => t,
    };
    assert(t1.len() == t.len());
    let t2 = t1.update(child.0 as int, NodeView { parent: Some(parent), ..t1[child.0 as int] });
    assert(t2[i].children == t1[i].children);
    if i == parent.0 {
        assert(t3[i].children == t1[i].children.push(child));
        if c == child {
            return;
        }
        assert(t1[i].children.contains(c)) by {
            assert(t3[i].children[j] == t1[i].children[j]);
        }
    } else {
        assert(t3[i].children == t1[i].children);
    }
    assert(t1[i].children.contains(c));
    match op {
        Some(o) => {
            if o.0 < t.len() && i == o.0 {
                t[i].children.lemma_filter_contains_rev(other_than(child), c);
            }
        },
        None => {},
    }
}

/// Appending a node without children under another node keeps the tree a
/// forest.
pub proof fn law_append_leaf_keeps_forest(t: Seq<NodeView>, parent: NodeId, child: NodeId)
    requires
        is_forest(t),
        child.0 < t.len(),
        t[child.0 as int].children.len() == 0,
        parent != child,
    ensures
        is_forest(spec_append(t, parent, child)),
{
    let r = forest_rank(t);
    assert(ranked(t, r));
    let t2 = spec_append(t, parent, child);
    let r2 = Seq::new(t.len(), |i: int| if i == child.0 { 0nat } else { r[i] + 1 });
    assert forall|i: int, j: int|
        0 <= i < t2.len() && 0 <= j < t2[i].children.len() && (#[trigger] t2[i].children[j]).0 < t2.len()
            implies r2[t2[i].children[j].0 as int] < r2[i] by {
        let c = t2[i].children[j];
        assert(t2[i].children.contains(c));
        lemma_append_children(t, parent, child, i, c);
        if c == child {
            if i == child.0 {
                assert(!t[i].children.contains(c));
            }
        } else {
            let k = choose|k: int| 0 <= k < t[i].children.len() && t[i].children[k] == c;
            assert(t[i].children[k] == c);
            assert(r[c.0 as int] < r[i]);
        }
    }
    assert(ranked(t2, r2));
}

/// Each node of `p` after the first is a child of the node before it.
pub open spec fn child_path(t: Seq<NodeView>, p: Seq<NodeId>) -> bool {
    forall|i: int|
        0 <= i < p.len() - 1 ==> (#[trigger] p[i]).0 < t.len() && t[p[i].0 as int].children.contains(p[i + 1])
}

/// `b` lies in the subtree under `a` (`a` itself included): a path of
/// children leads from `a` to `b`.
pub open spec fn in_subtree(t: Seq<NodeView>, a: NodeId, b: NodeId) -> bool {
    exists|p: Seq<NodeId>| #[trigger] child_path(t, p) && p.len() > 0 && p[0] == a && p.last() == b
}

/// A child of a node in the subtree under `a` is in it too.
proof fn lemma_subtree_step(t: Seq<NodeView>, a: NodeId, i: int, c: NodeId)
    requires
        0 <= i < t.len(),
        t.len() <= usize::MAX,
        in_subtree(t, a, NodeId(i as usize)),
        t[i].children.contains(c),
    ensures
        in_subtree(t, a, c),
{
    let p = choose|p: Seq<NodeId>| #[trigger] child_path(t, p) && p.len() > 0 && p[0] == a && p.last() == NodeId(i as usize);
    let q = p.push(c);
    assert forall|j: int| 0 <= j < q.len() - 1 implies (#[trigger] q[j]).0 < t.len() && t[q[j].0 as int].children.contains(q[j + 1]) by {
        if j < p.len() - 1 {
            assert(q[j] == p[j] && q[j + 1] == p[j + 1]);
        } else {
            assert(q[j] == NodeId(i as usize));
            assert(q[j + 1] == c);
        }
    }
    assert(child_path(t, q) && q.len() > 0 && q[0] == a && q.last() == c);
}

/// Moving a node under a parent that is not in the node's own subtree keeps
/// the tree a forest.
pub proof fn law_append_keeps_forest(t: Seq<NodeView>, parent: NodeId, child: NodeId)
    requires
        is_forest(t),
        t.len() <= usize::MAX,
        parent.0 < t.len(),
        child.0 < t.len(),
        !in_subtree(t, child, parent),
    ensures
        is_forest(spec_append(t, parent, child)),
{
    let r = forest_rank(t);
    assert(ranked(t, r));
    assert(child_path(t, seq![child]) && seq![child][0] == child && seq![child].last() == child);
    assert(parent != child);
    let t2 = spec_append(t, parent, child);
    let k = r[child.0 as int] + 1;
    let r2 = Seq::new(t.len(), |i: int| if in_subtree(t, child, NodeId(i as usize)) { r[i] } else { r[i] + k });
    assert forall|i: int, j: int|
        0 <= i < t2.len() && 0 <= j < t2[i].children.len() && (#[trigger] t2[i].children[j]).0 < t2.len()
            implies r2[t2[i].children[j].0 as int] < r2[i] by {
        let c = t2[i].children[j];
        assert(t2[i].children.contains(c));
        lemma_append_children(t, parent, child, i, c);
        assert(NodeId(c.0 as int as usize) == c);
        if t[i].children.contains(c) {
            let m = choose|m: int| 0 <= m < t[i].children.len() && t[i].children[m] == c;
            assert(t[i].children[m] == c);
            assert(r[c.0 as int] < r[i]);
            if in_subtree(t, child, NodeId(i as usize)) {
                lemma_subtree_step(t, child, i, c);
            }
        } else {
            assert(i == parent.0 && c == child);
            assert(NodeId(i as usize) == parent);
        }
    }
    assert(ranked(t2, r2));
}

/// The parent and children links agree: every parent and child that a node
/// names exists, and a node occurs in a children list exactly once when
/// that list's node is its parent, and never otherwise.
pub open spec fn links_consistent(t: Seq<NodeView>) -> bool {
    &&& forall|n: int| 0 <= n < t.len() ==> (#[trigger] t[n].parent matches Some(p) ==> p.0 < t.len())
    &&& forall|q: int, x: NodeId| 0 <= q < t.len() && #[trigger] t[q].children.contains(x) ==> x.0 < t.len()
    &&& forall|n: NodeId, q: NodeId|
        n.0 < t.len() && q.0 < t.len() ==> #[trigger] t[q.0 as int].children.to_multiset().count(n) == (if t[n.0 as int].parent
            == Some(q) {
            1nat
        } else {
            0nat
        })
}

/// Removing every `c` from a list: `c` no longer occurs, every other node
/// occurs as often as before, and nothing new occurs.
proof fn lemma_without_child(cs: Seq<NodeId>, c: NodeId)
    ensures
        forall|x: NodeId| #[trigger] without_child(cs, c).to_multiset().count(x) == (if x == c {
            0nat
        } else {
            cs.to_multiset().count(x)
        }),
        forall|x: NodeId| #[trigger] without_child(cs, c).contains(x) ==> cs.contains(x),
    decreases cs.len(),
{
    broadcast use vstd::multiset::group_multiset_axioms, vstd::seq_lib::group_seq_properties;
    reveal(Seq::filter);
    if cs.len() == 0 {
        assert(without_child(cs, c) =~= cs);
        assert(cs.to_multiset() =~= vstd::multiset::Multiset::<NodeId>::empty());
    } else {
        let d = cs.drop_last();
        lemma_without_child(d, c);
        assert(cs =~= d.push(cs.last()));
        vstd::seq_lib::to_multiset_build(d, cs.last());
        if cs.last() != c {
            assert(without_child(cs, c) == without_child(d, c).push(cs.last()));
            vstd::seq_lib::to_multiset_build(without_child(d, c), cs.last());
        } else {
            assert(without_child(cs, c) == without_child(d, c));
        }
        assert forall|x: NodeId| #[trigger] without_child(cs, c).to_multiset().count(x) == (if x == c {
            0nat
        } else {
            cs.to_multiset().count(x)
        }) by {
            assert(without_child(d, c).to_multiset().count(x) == (if x == c { 0nat } else { d.to_multiset().count(x) }));
        }
        assert forall|x: NodeId| #[trigger] without_child(cs, c).contains(x) implies cs.contains(x) by {
            cs.lemma_filter_contains_rev(other_than(c), x);
        }
    }
}

/// `append_child` keeps the parent and children links in agreement.
pub proof fn law_append_keeps_links(t: Seq<NodeView>, parent: NodeId, child: NodeId)
    requires
        links_consistent(t),
        parent.0 < t.len(),
        child.0 < t.len(),
        parent != child,
    ensures
        links_consistent(spec_append(t, parent, child)),
{
    broadcast use vstd::multiset::group_multiset_axioms, vstd::seq_lib::group_seq_properties;
    let t2 = spec_append(t, parent, child);
    let op = t[child.0 as int].parent;
    lemma_without_child(t[parent.0 as int].children, child);
    assert(t2.len() == t.len());
    assert forall|n: int| 0 <= n < t2.len() implies (#[trigger] t2[n].parent matches Some(p) ==> p.0 < t2.len()) by {
        if n != child.0 {
            assert(t2[n].parent == t[n].parent);
        }
    }
    assert forall|q: int, x: NodeId| 0 <= q < t2.len() && #[trigger] t2[q].children.contains(x) implies x.0 < t2.len() by {
        lemma_append_children(t, parent, child, q, x);
    }
    assert forall|n: NodeId, q: NodeId| n.0 < t2.len() && q.0 < t2.len() implies #[trigger] t2[q.0 as int].children.to_multiset().count(n)
        == (if t2[n.0 as int].parent == Some(q) { 1nat } else { 0nat }) by {
        let cs = t[q.0 as int].children;
        lemma_without_child(cs, child);
        assert(cs.to_multiset().count(n) == (if t[n.0 as int].parent == Some(q) { 1nat } else { 0nat }));
        assert(cs.to_multiset().count(child) == (if op == Some(q) { 1nat } else { 0nat }));
        let base = if op == Some(q) { without_child(cs, child) } else { cs };
        if n != child {
            assert(t2[n.0 as int].parent == t[n.0 as int].parent);
        }
        if q == parent {
            assert(t2[q.0 as int].children == base.push(child));
            vstd::seq_lib::to_multiset_build(base, child);
        } else {
            assert(t2[q.0 as int].children == base);
        }
    }
}

/// The largest rank of a ranking.
pub open spec fn max_rank(r: Seq<nat>) -> nat
    decreases r.len(),
{
    if r.len() == 0 {
        0
    } else if r.last() > max_rank(r.drop_last()) {
        r.last()
    } else {
        max_rank(r.drop_last())
    }
}

proof fn lemma_max_rank(r: Seq<nat>, i: int)
    requires
        0 <= i < r.len(),
    ensures
        r[i] <= max_rank(r),
    decreases r.len(),
{
    if i < r.len() - 1 {
        lemma_max_rank(r.drop_last(), i);
    }
}

/// One step up, then `k` more, is `k + 1` steps up.
proof fn lemma_ancestor_shift(t: Seq<NodeView>, start: Option<NodeId>, k: nat)
    ensures
        ancestor_at(t, start, k + 1) == ancestor_at(t, parent_step(t, start), k),
    decreases k,
{
    let m: nat = k + 1;
    assert((m - 1) as nat == k);
    assert(ancestor_at(t, start, m) == parent_step(t, ancestor_at(t, start, k)));
    if k > 0 {
        lemma_ancestor_shift(t, start, (k - 1) as nat);
        assert(ancestor_at(t, parent_step(t, start), k) == parent_step(t, ancestor_at(t, parent_step(t, start), (k - 1) as nat)));
    } else {
        assert(ancestor_at(t, start, 0) == start);
    }
}

/// In a forest whose links agree, the parent chain from any node stops:
/// each parent ranks above its child.
proof fn lemma_chain_ends_from(t: Seq<NodeView>, r: Seq<nat>, n: NodeId)
    requires
        links_consistent(t),
        ranked(t, r),
        n.0 < t.len(),
    ensures
        chain_ends(t, Some(n)),
    decreases max_rank(r) - r[n.0 as int],
{
    lemma_max_rank(r, n.0 as int);
    match t[n.0 as int].parent {
        None => {
            lemma_ancestor_shift(t, Some(n), 0);
            assert(ancestor_at(t, parent_step(t, Some(n)), 0) is None);
            assert(ancestor_at(t, Some(n), 1) is None);
        },
        Some(q) => {
            assert(q.0 < t.len());
            let cs = t[q.0 as int].children;
            assert(cs.to_multiset().count(n) == 1nat);
            cs.to_multiset_ensures();
            assert(cs.contains(n));
            let j = choose|j: int| 0 <= j < cs.len() && cs[j] == n;
            assert(t[q.0 as int].children[j] == n);
            assert(r[n.0 as int] < r[q.0 as int]);
            lemma_max_rank(r, q.0 as int);
            lemma_chain_ends_from(t, r, q);
            let k = choose|k: nat| #[trigger] ancestor_at(t, Some(q), k) is None;
            lemma_ancestor_shift(t, Some(n), k);
            assert(ancestor_at(t, Some(n), k + 1) is None);
        },
    }
}

/// A forest whose parent and children links agree has no parent cycle.
pub proof fn law_consistent_forest_parents_acyclic(t: Seq<NodeView>)
    requires
        is_forest(t),
        links_consistent(t),
    ensures
        parents_acyclic(t),
{
    let r = forest_rank(t);
    assert(ranked(t, r));
    assert forall|i: int| 0 <= i < t.len() implies chain_ends(t, #[trigger] t[i].parent) by {
        match t[i].parent {
            None => {
                assert(ancestor_at(t, t[i].parent, 0) is None);
            },
            Some(q) => {
                lemma_chain_ends_from(t, r, q);
            },
        }
    }
}

/// Moving a node under a parent outside its own subtree, in a forest whose
/// links agree, keeps parent chains acyclic (and the tree a forest whose
/// links agree).
pub proof fn law_append_keeps_parents_acyclic(t: Seq<NodeView>, parent: NodeId, child: NodeId)
    requires
        is_forest(t),
        links_consistent(t),
        t.len() <= usize::MAX,
        parent.0 < t.len(),
        child.0 < t.len(),
        !in_subtree(t, child, parent),
    ensures
        parents_acyclic(spec_append(t, parent, child)),
        is_forest(spec_append(t, parent, child)),
        links_consistent(spec_append(t, parent, child)),
{
    assert(child_path(t, seq![child]) && seq![child][0] == child && seq![child].last() == child);
    law_append_keeps_forest(t, parent, child);
    law_append_keeps_links(t, parent, child);
    law_consistent_forest_parents_acyclic(spec_append(t, parent, child));
}

/// The parent chain from `s` first stops after `m` steps.
pub open spec fn first_stop(t: Seq<NodeView>, s: Option<NodeId>, m: nat) -> bool {
    &&& ancestor_at(t, s, m) is None
    &&& forall|j: nat| j < m ==> (#[trigger] ancestor_at(t, s, j)) is Some
}

/// A chain that stops has a first stop.
proof fn lemma_first_stop(t: Seq<NodeView>, s: Option<NodeId>, k: nat)
    requires
        ancestor_at(t, s, k) is None,
    ensures
        exists|m: nat| m <= k && #[trigger] first_stop(t, s, m),
    decreases k,
{
    if forall|j: nat| j < k ==> (#[trigger] ancestor_at(t, s, j)) is Some {
        assert(first_stop(t, s, k));
    } else {
        let j = choose|j: nat| j < k && !((#[trigger] ancestor_at(t, s, j)) is Some);
        lemma_first_stop(t, s, j);
        let m = choose|m: nat| m <= j && #[trigger] first_stop(t, s, m);
        assert(first_stop(t, s, m));
    }
}

/// The first stop is unique.
proof fn lemma_first_stop_unique(t: Seq<NodeView>, s: Option<NodeId>, a: nat, b: nat)
    requires
        first_stop(t, s, a),
        first_stop(t, s, b),
    ensures
        a == b,
{
    if a < b {
        assert(ancestor_at(t, s, a) is Some);
    } else if b < a {
        assert(ancestor_at(t, s, b) is Some);
    }
}

/// How many steps the parent chain from node `n` takes to stop.
pub open spec fn depth(t: Seq<NodeView>, n: int) -> nat {
    choose|m: nat| #[trigger] first_stop(t, Some(NodeId(n as usize)), m)
}

/// A child's chain stops one step after its parent's.
proof fn lemma_depth_child(t: Seq<NodeView>, c: NodeId, q: NodeId, dq: nat)
    requires
        t[c.0 as int].parent == Some(q),
        c.0 < t.len(),
        first_stop(t, Some(q), dq),
    ensures
        first_stop(t, Some(c), dq + 1),
{
    lemma_ancestor_shift(t, Some(c), dq);
    assert(parent_step(t, Some(c)) == Some(q));
    assert forall|j: nat| j < dq + 1 implies (#[trigger] ancestor_at(t, Some(c), j)) is Some by {
        if j == 0 {
            assert(ancestor_at(t, Some(c), 0) == Some(c));
        } else {
            let i: nat = (j - 1) as nat;
            lemma_ancestor_shift(t, Some(c), i);
            assert(ancestor_at(t, Some(q), i) is Some);
        }
    }
}

/// Links that agree and parent chains that stop make a forest: a node
/// ranks by how far its chain is from stopping.
pub proof fn law_acyclic_links_make_forest(t: Seq<NodeView>)
    requires
        parents_acyclic(t),
        links_consistent(t),
        t.len() <= usize::MAX,
    ensures
        is_forest(t),
{
    assert forall|n: int| 0 <= n < t.len() implies #[trigger] first_stop(t, Some(NodeId(n as usize)), depth(t, n)) by {
        assert(chain_ends(t, t[n].parent));
        let k = choose|k: nat| #[trigger] ancestor_at(t, t[n].parent, k) is None;
        lemma_ancestor_shift(t, Some(NodeId(n as usize)), k);
        assert(NodeId(n as usize).0 == n);
        assert(parent_step(t, Some(NodeId(n as usize))) == t[n].parent);
        lemma_first_stop(t, Some(NodeId(n as usize)), k + 1);
    }
    let ds = Seq::new(t.len(), |n: int| depth(t, n));
    let big = max_rank(ds);
    let r = Seq::new(t.len(), |n: int| (big - depth(t, n)) as nat);
    assert forall|i: int, j: int|
        0 <= i < t.len() && 0 <= j < t[i].children.len() && (#[trigger] t[i].children[j]).0 < t.len()
            implies r[t[i].children[j].0 as int] < r[i] by {
        let c = t[i].children[j];
        let q = NodeId(i as usize);
        assert(q.0 == i);
        assert(t[i].children.contains(c));
        t[i].children.to_multiset_ensures();
        assert(t[q.0 as int].children.to_multiset().count(c) > 0);
        assert(t[c.0 as int].parent == Some(q));
        assert(first_stop(t, Some(NodeId(i as usize)), depth(t, i)));
        lemma_depth_child(t, c, q, depth(t, i));
        assert(NodeId(c.0 as int as usize) == c);
        assert(first_stop(t, Some(c), depth(t, c.0 as int)));
        lemma_first_stop_unique(t, Some(c), depth(t, i) + 1, depth(t, c.0 as int));
        lemma_max_rank(ds, c.0 as int);
        lemma_max_rank(ds, i);
    }
    assert(ranked(t, r));
}

/// Moving a node under a parent outside its own subtree keeps the parent
/// chains of a tree whose links agree acyclic, and its links in agreement.
pub proof fn law_append_keeps_acyclic(t: Seq<NodeView>, parent: NodeId, child: NodeId)
    requires
        parents_acyclic(t),
        links_consistent(t),
        t.len() <= usize::MAX,
        parent.0 < t.len(),
        child.0 < t.len(),
        !in_subtree(t, child, parent),
    ensures
        parents_acyclic(spec_append(t, parent, child)),
        links_consistent(spec_append(t, parent, child)),
{
    law_acyclic_links_make_forest(t);
    law_append_keeps_parents_acyclic(t, parent, child);
}

} // verus!
