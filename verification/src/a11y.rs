//! Accessibility tree builder.
//!
//! Walks the DOM tree, maps elements to roles, computes labels from
//! attributes (aria-label, title, alt, value) or text content, and tracks
//! element states (disabled, checked, ...).
use vstd::prelude::*;
use crate::dom::{DomTree, NodeId, NodeKind, children_of, NodeView, KindView, attribute_of, text_of, is_forest, forest_at,
    lemma_forest_at, partly_ranked, rank_at};
use crate::text::{str_eq, str_from, trim, trim_str};

verus! {

/// Role of an element in the accessibility tree.
#[derive(Debug, Clone, Copy, PartialEq, Eq, Structural)]
pub enum Role {
    Button,
    Link,
    Textbox,
    Checkbox,
    RadioButton,
    ComboBox,
    MenuItem,
    Heading,
    Paragraph,
    Image,
    Generic,
}

/// States an element can have.
#[derive(Debug, Clone, Copy, PartialEq, Eq)]
pub struct States {
    pub disabled: bool,
    pub checked: Option<bool>,
    pub focused: bool,
    pub expanded: Option<bool>,
    pub selected: bool,
}

impl Default for States {
    fn default() -> (s: Self)
        ensures
            s == (States { disabled: false, checked: None, focused: false, expanded: None, selected: false }),
    {
        States { disabled: false, checked: None, focused: false, expanded: None, selected: false }
    }
}

/// An accessibility tree node.
#[derive(Debug, Clone)]
pub struct A11yNode {
    pub element: NodeId,
    pub role: Role,
    pub label: String,
    pub states: States,
    pub children: Vec<usize>,
}

/// The accessibility tree.
#[derive(Debug, Clone)]
pub struct A11yTree {
    pub nodes: Vec<A11yNode>,
}

/// The content of an accessibility node.
pub struct A11yNodeView {
    pub element: NodeId,
    pub role: Role,
    pub label: Seq<char>,
    pub states: States,
    pub children: Seq<usize>,
}

impl View for A11yNode {
    type V = A11yNodeView;

    open spec fn view(&self) -> A11yNodeView {
        A11yNodeView {
            element: self.element,
            role: self.role,
            label: self.label@,
            states: self.states,
            children: self.children@,
        }
    }
}

/// The content of a list of accessibility nodes.
pub open spec fn a11y_view(s: Seq<A11yNode>) -> Seq<A11yNodeView> {
    s.map_values(|n: A11yNode| n@)
}

/// The role an element with tag `tag` gets.
pub open spec fn role_for(t: Seq<NodeView>, id: NodeId, tag: Seq<char>) -> Role {
    if tag == "button"@ {
        Role::Button
    } else if tag == "a"@ {
        Role::Link
    } else if tag == "input"@ {
        let ty = match attribute_of(t, id, "type"@) {
            Some(v) => v,
            None => "text"@,
        };
        if ty == "checkbox"@ {
            Role::Checkbox
        } else if ty == "radio"@ {
            Role::RadioButton
        } else {
            Role::Textbox
        }
    } else if tag == "select"@ {
        Role::ComboBox
    } else if tag == "option"@ {
        Role::MenuItem
    } else if tag == "textarea"@ {
        Role::Textbox
    } else if tag == "h1"@ || tag == "h2"@ || tag == "h3"@ || tag == "h4"@ || tag == "h5"@ || tag == "h6"@ {
        Role::Heading
    } else if tag == "p"@ {
        Role::Paragraph
    } else if tag == "img"@ {
        Role::Image
    } else {
        Role::Generic
    }
}

/// The label of an element: aria-label, then title, then (for images) alt or
/// "[image]", then a non-empty value, then its trimmed text content.
pub open spec fn label_for(t: Seq<NodeView>, id: NodeId, tag: Seq<char>) -> Seq<char> {
    match attribute_of(t, id, "aria-label"@) {
        Some(l) => l,
        None => match attribute_of(t, id, "title"@) {
            Some(l) => l,
            None => if tag == "img"@ {
                match attribute_of(t, id, "alt"@) {
                    Some(a) => a,
                    None => "[image]"@,
                }
            } else {
                match attribute_of(t, id, "value"@) {
                    Some(v) if v.len() > 0 => v,
                    _ => trim(if id.0 < t.len() { text_of(t, id) } else { Seq::empty() }),
                }
            },
        },
    }
}

/// The states of an element, read from its attributes.
pub open spec fn states_for(t: Seq<NodeView>, id: NodeId) -> States {
    States {
        disabled: attribute_of(t, id, "disabled"@) is Some,
        checked: if attribute_of(t, id, "checked"@) is Some {
            Some(true)
        } else {
            match attribute_of(t, id, "aria-checked"@) {
                Some(v) => Some(v == "true"@),
                None => None,
            }
        },
        focused: attribute_of(t, id, "autofocus"@) is Some,
        expanded: match attribute_of(t, id, "aria-expanded"@) {
            Some(v) => Some(v == "true"@),
            None => None,
        },
        selected: attribute_of(t, id, "selected"@) is Some,
    }
}

/// Building the subtree of `id` onto the nodes built so far: the nodes after,
/// and the index of the subtree's node if it produced one. Elements come after
/// their children (post-order); whitespace-only text and comments produce
/// nothing; the document yields its first child that produces a node.
pub open spec fn build_node(t: Seq<NodeView>, rk: Seq<nat>, id: NodeId, acc: Seq<A11yNodeView>) -> (Seq<A11yNodeView>, Option<usize>)
    decreases rk[id.0 as int], 1nat, 0nat
    when partly_ranked(t, rk) && id.0 < t.len() && rk[id.0 as int] > 0
{
    match t[id.0 as int].kind {
        KindView::Document => build_first(t, rk, t[id.0 as int].children, id, acc),
        KindView::Element { tag, .. } => {
            let (acc2, kids) = build_all(t, rk, t[id.0 as int].children, id, acc);
            (
                acc2.push(A11yNodeView {
                    element: id,
                    role: role_for(t, id, tag),
                    label: label_for(t, id, tag),
                    states: states_for(t, id),
                    children: kids,
                }),
                Some(acc2.len() as usize),
            )
        },
        KindView::Text(c) => {
            if trim(c).len() == 0 {
                (acc, None)
            } else {
                (
                    acc.push(A11yNodeView {
                        element: id,
                        role: Role::Generic,
                        label: trim(c),
                        states: States { disabled: false, checked: None, focused: false, expanded: None, selected: false },
                        children: Seq::empty(),
                    }),
                    Some(acc.len() as usize),
                )
            }
        },
        KindView::Comment(_) => (acc, None),
    }
}

/// Building every child in `cs` (a prefix of `p`'s children) in order,
/// collecting the indices of the nodes they produced.
pub open spec fn build_all(t: Seq<NodeView>, rk: Seq<nat>, cs: Seq<NodeId>, p: NodeId, acc: Seq<A11yNodeView>) -> (Seq<A11yNodeView>, Seq<usize>)
    decreases rk[p.0 as int], 0nat, cs.len()
    when partly_ranked(t, rk) && p.0 < t.len() && rk[p.0 as int] > 0 && cs.len() <= t[p.0 as int].children.len()
        && cs == t[p.0 as int].children.take(cs.len() as int)
{
    if cs.len() == 0 {
        (acc, Seq::empty())
    } else {
        let (a1, k1) = build_all(t, rk, cs.drop_last(), p, acc);
        let c = cs.last();
        if c.0 < t.len() {
            proof {
                assert(c == t[p.0 as int].children[cs.len() - 1]);
            }
            let (a2, r) = build_node(t, rk, c, a1);
            (a2, match r { Some(i) => k1.push(i), None => k1 })
        } else {
            (a1, k1)
        }
    }
}

/// Building the children in `cs` (a prefix of `p`'s children) in order until
/// one produces a node.
pub open spec fn build_first(t: Seq<NodeView>, rk: Seq<nat>, cs: Seq<NodeId>, p: NodeId, acc: Seq<A11yNodeView>) -> (Seq<A11yNodeView>, Option<usize>)
    decreases rk[p.0 as int], 0nat, cs.len()
    when partly_ranked(t, rk) && p.0 < t.len() && rk[p.0 as int] > 0 && cs.len() <= t[p.0 as int].children.len()
        && cs == t[p.0 as int].children.take(cs.len() as int)
{
    if cs.len() == 0 {
        (acc, None)
    } else {
        let (a1, r1) = build_first(t, rk, cs.drop_last(), p, acc);
        let c = cs.last();
        if r1 is Some {
            (a1, r1)
        } else if c.0 < t.len() {
            proof {
                assert(c == t[p.0 as int].children[cs.len() - 1]);
            }
            build_node(t, rk, c, a1)
        } else {
            (a1, None)
        }
    }
}

/// Map an HTML tag to an a11y role.
fn map_role(tag: &str, dom: &DomTree, id: NodeId) -> (r: Role)
    ensures
        r == role_for(dom@, id, tag@),
{
    if str_eq(tag, "button") {
        Role::Button
    } else if str_eq(tag, "a") {
        Role::Link
    } else if str_eq(tag, "input") {
        let input_type = match dom.get_attribute(id, "type") {
            Some(v) => v,
            None => "text",
        };
        if str_eq(input_type, "checkbox") {
            Role::Checkbox
        } else if str_eq(input_type, "radio") {
            Role::RadioButton
        } else {
            Role::Textbox
        }
    } else if str_eq(tag, "select") {
        Role::ComboBox
    } else if str_eq(tag, "option") {
        Role::MenuItem
    } else if str_eq(tag, "textarea") {
        Role::Textbox
    } else if str_eq(tag, "h1") || str_eq(tag, "h2") || str_eq(tag, "h3") || str_eq(tag, "h4")
        || str_eq(tag, "h5") || str_eq(tag, "h6") {
        Role::Heading
    } else if str_eq(tag, "p") {
        Role::Paragraph
    } else if str_eq(tag, "img") {
        Role::Image
    } else {
        Role::Generic
    }
}

/// Compute a label for an element from attributes or text content.
fn compute_label(dom: &DomTree, id: NodeId, tag: &str) -> (r: String)
    requires
        forest_at(dom@, id),
    ensures
        r@ == label_for(dom@, id, tag@),
{
    if let Some(label) = dom.get_attribute(id, "aria-label") {
        return str_from(label);
    }
    if let Some(title) = dom.get_attribute(id, "title") {
        return str_from(title);
    }
    if str_eq(tag, "img") {
        if let Some(alt) = dom.get_attribute(id, "alt") {
            return str_from(alt);
        }
        return str_from("[image]");
    }
    if let Some(value) = dom.get_attribute(id, "value") {
        if !value.is_empty() {
            return str_from(value);
        }
    }
    let text = dom.text_content(id);
    trim_str(text.as_str())
}

/// Compute states from DOM attributes.
fn compute_states(dom: &DomTree, id: NodeId) -> (r: States)
    ensures
        r == states_for(dom@, id),
{
    let checked = if dom.get_attribute(id, "checked").is_some() {
        Some(true)
    } else {
        match dom.get_attribute(id, "aria-checked") {
            Some(v) => Some(str_eq(v, "true")),
            None => None,
        }
    };
    let expanded = match dom.get_attribute(id, "aria-expanded") {
        Some(v) => Some(str_eq(v, "true")),
        None => None,
    };
    States {
        disabled: dom.get_attribute(id, "disabled").is_some(),
        checked,
        focused: dom.get_attribute(id, "autofocus").is_some(),
        expanded,
        selected: dom.get_attribute(id, "selected").is_some(),
    }
}

/// Once a prefix of the children produced a node, longer prefixes give the
/// same result: later children are not visited.
proof fn lemma_build_first_stable(t: Seq<NodeView>, rk: Seq<nat>, p: NodeId, acc: Seq<A11yNodeView>, i: int, j: int)
    requires
        partly_ranked(t, rk),
        p.0 < t.len(),
        rk[p.0 as int] > 0,
        0 <= i <= j <= t[p.0 as int].children.len(),
        build_first(t, rk, t[p.0 as int].children.take(i), p, acc).1 is Some,
    ensures
        build_first(t, rk, t[p.0 as int].children.take(j), p, acc) == build_first(t, rk, t[p.0 as int].children.take(i), p, acc),
    decreases j - i,
{
    if j > i {
        lemma_build_first_stable(t, rk, p, acc, i, j - 1);
        let cs = t[p.0 as int].children.take(j);
        assert(cs.drop_last() =~= t[p.0 as int].children.take(j - 1));
    }
}

fn build_subtree(dom: &DomTree, node_id: NodeId, tree: &mut A11yTree, Ghost(rk): Ghost<Seq<nat>>) -> (r: Option<usize>)
    requires
        partly_ranked(dom@, rk),
        node_id.0 < dom@.len(),
        rk[node_id.0 as int] > 0,
    ensures
        (a11y_view(final(tree).nodes@), r) == build_node(dom@, rk, node_id, a11y_view(old(tree).nodes@)),
    decreases rk[node_id.0 as int],
{
    let ghost t = dom@;
    let ghost start = a11y_view(tree.nodes@);
    let node = match dom.get(node_id) {
        Some(n) => n,
        None => return None,
    };
    match &node.kind {
        NodeKind::Document => {
            let children = dom.children(node_id);
            proof {
                assert(children@.take(0) =~= Seq::<NodeId>::empty());
            }
            let mut i: usize = 0;
            while i < children.len()
                invariant
                    i <= children.len(),
                    t == dom@,
                    partly_ranked(t, rk),
                    rk[node_id.0 as int] > 0,
                    node_id.0 < t.len(),
                    children@ == t[node_id.0 as int].children,
                    t[node_id.0 as int].kind is Document,
                    start == a11y_view(old(tree).nodes@),
                    (a11y_view(tree.nodes@), None::<usize>) == build_first(t, rk, children@.take(i as int), node_id, start),
                decreases children.len() - i,
            {
                let c = children[i];
                proof {
                    assert(children@.take(i + 1).drop_last() =~= children@.take(i as int));
                    assert(children@.take(i + 1).last() == c);
                    assert(t[node_id.0 as int].children[i as int] == c);
                }
                if c.0 < dom.len() {
                    let found = build_subtree(dom, c, tree, Ghost(rk));
                    if let Some(idx) = found {
                        proof {
                            assert(build_first(t, rk, children@.take(i + 1), node_id, start) == (a11y_view(tree.nodes@), Some(idx)));
                            lemma_build_first_stable(t, rk, node_id, start, i + 1, children@.len() as int);
                            assert(children@.take(children@.len() as int) =~= children@);
                        }
                        return Some(idx);
                    }
                }
                i = i + 1;
            }
            proof {
                assert(children@.take(children@.len() as int) =~= children@);
            }
            None
        },
        NodeKind::Element { tag_name, .. } => {
            let role = map_role(tag_name.as_str(), dom, node_id);
            proof {
                assert(partly_ranked(t, rk) && rk[node_id.0 as int] > 0);
            }
            let label = compute_label(dom, node_id, tag_name.as_str());
            let states = compute_states(dom, node_id);
            let mut kids: Vec<usize> = Vec::new();
            let children = dom.children(node_id);
            proof {
                assert(children@.take(0) =~= Seq::<NodeId>::empty());
            }
            let mut i: usize = 0;
            while i < children.len()
                invariant
                    i <= children.len(),
                    t == dom@,
                    partly_ranked(t, rk),
                    rk[node_id.0 as int] > 0,
                    node_id.0 < t.len(),
                    children@ == t[node_id.0 as int].children,
                    (a11y_view(tree.nodes@), kids@) == build_all(t, rk, children@.take(i as int), node_id, start),
                decreases children.len() - i,
            {
                let c = children[i];
                proof {
                    assert(children@.take(i + 1).drop_last() =~= children@.take(i as int));
                    assert(children@.take(i + 1).last() == c);
                    assert(t[node_id.0 as int].children[i as int] == c);
                }
                if c.0 < dom.len() {
                    let found = build_subtree(dom, c, tree, Ghost(rk));
                    if let Some(idx) = found {
                        kids.push(idx);
                    }
                }
                i = i + 1;
            }
            proof {
                assert(children@.take(children@.len() as int) =~= children@);
            }
            let idx = tree.nodes.len();
            let ghost before = a11y_view(tree.nodes@);
            tree.nodes.push(A11yNode { element: node_id, role, label, states, children: kids });
            proof {
                assert(a11y_view(tree.nodes@) =~= before.push(tree.nodes@[idx as int]@));
            }
            Some(idx)
        },
        NodeKind::Text { content } => {
            let trimmed = trim_str(content.as_str());
            if trimmed.as_str().is_empty() {
                return None;
            }
            let idx = tree.nodes.len();
            let ghost before = a11y_view(tree.nodes@);
            tree.nodes.push(A11yNode {
                element: node_id,
                role: Role::Generic,
                label: trimmed,
                states: States::default(),
                children: Vec::new(),
            });
            proof {
                assert(a11y_view(tree.nodes@) =~= before.push(tree.nodes@[idx as int]@));
            }
            Some(idx)
        },
        NodeKind::Comment { .. } => None,
    }
}

/// The accessibility tree of a page: the nodes built from its root, none for
/// an empty tree.
pub open spec fn a11y_of(t: Seq<NodeView>) -> Seq<A11yNodeView> {
    if t.len() > 0 {
        build_node(t, rank_at(t, NodeId(0)), NodeId(0), Seq::empty()).0
    } else {
        Seq::empty()
    }
}

/// Build an accessibility tree from a DOM tree.
///
/// Walks the DOM tree from the root, maps elements to roles, computes labels
/// and tracks element states.
pub fn build(dom: &DomTree) -> (tree: A11yTree)
    requires
        is_forest(dom@) || dom@.len() == 0 || forest_at(dom@, NodeId(0)),
    ensures
        a11y_view(tree.nodes@) == a11y_of(dom@),
{
    let mut tree = A11yTree { nodes: Vec::new() };
    proof {
        assert(a11y_view(tree.nodes@) =~= Seq::<A11yNodeView>::empty());
    }
    if dom.is_empty() {
        return tree;
    }
    let root = dom.root();
    proof {
        if is_forest(dom@) {
            lemma_forest_at(dom@, root);
        }
    }
    let _ = build_subtree(dom, root, &mut tree, Ghost(rank_at(dom@, root)));
    tree
}


/// Every node's children come before it: child indices are smaller than the
/// index of their parent.
pub open spec fn children_before(s: Seq<A11yNodeView>) -> bool {
    forall|k: int, j: int| 0 <= k < s.len() && 0 <= j < s[k].children.len() ==> (#[trigger] s[k].children[j]) < k
}

/// `r` starts with `acc`.
pub open spec fn extends(acc: Seq<A11yNodeView>, r: Seq<A11yNodeView>) -> bool {
    &&& acc.len() <= r.len()
    &&& forall|i: int| 0 <= i < acc.len() ==> #[trigger] r[i] == acc[i]
}

proof fn lemma_build_node(t: Seq<NodeView>, rk: Seq<nat>, id: NodeId, acc: Seq<A11yNodeView>)
    requires
        partly_ranked(t, rk),
        id.0 < t.len(),
        rk[id.0 as int] > 0,
    ensures
        extends(acc, build_node(t, rk, id, acc).0),
        build_node(t, rk, id, acc).0.len() <= usize::MAX ==> {
            &&& (build_node(t, rk, id, acc).1 matches Some(i) ==> acc.len() <= i < build_node(t, rk, id, acc).0.len())
            &&& (children_before(acc) ==> children_before(build_node(t, rk, id, acc).0))
        },
    decreases rk[id.0 as int], 1nat, 0nat,
{
    match t[id.0 as int].kind {
        KindView::Document => {
            assert(t[id.0 as int].children =~= t[id.0 as int].children.take(t[id.0 as int].children.len() as int));
            lemma_build_first(t, rk, t[id.0 as int].children, id, acc);
        },
        KindView::Element { tag, .. } => {
            let cs = t[id.0 as int].children;
            assert(cs =~= cs.take(cs.len() as int));
            lemma_build_all(t, rk, cs, id, acc);
            let (acc2, kids) = build_all(t, rk, cs, id, acc);
            let r = build_node(t, rk, id, acc).0;
            assert(r.drop_last() == acc2);
            if r.len() <= usize::MAX {
                if children_before(acc) {
                    assert forall|k: int, j: int| 0 <= k < r.len() && 0 <= j < r[k].children.len() implies (
                    #[trigger] r[k].children[j]) < k by {
                        if k < acc2.len() {
                            assert(r[k] == acc2[k]);
                        } else {
                            assert(r[k].children == kids);
                        }
                    }
                }
            }
        },
        _ => {},
    }
}

proof fn lemma_build_all(t: Seq<NodeView>, rk: Seq<nat>, cs: Seq<NodeId>, p: NodeId, acc: Seq<A11yNodeView>)
    requires
        partly_ranked(t, rk),
        p.0 < t.len(),
        rk[p.0 as int] > 0,
        cs.len() <= t[p.0 as int].children.len(),
        cs == t[p.0 as int].children.take(cs.len() as int),
    ensures
        extends(acc, build_all(t, rk, cs, p, acc).0),
        build_all(t, rk, cs, p, acc).0.len() <= usize::MAX ==> {
            &&& forall|k: int| 0 <= k < build_all(t, rk, cs, p, acc).1.len() ==> acc.len() <= #[trigger] build_all(
                t,
                rk,
                cs,
                p,
                acc,
            ).1[k] < build_all(t, rk, cs, p, acc).0.len()
            &&& (children_before(acc) ==> children_before(build_all(t, rk, cs, p, acc).0))
        },
    decreases rk[p.0 as int], 0nat, cs.len(),
{
    if cs.len() > 0 {
        let d = cs.drop_last();
        assert(d == t[p.0 as int].children.take(d.len() as int));
        lemma_build_all(t, rk, d, p, acc);
        let (a1, k1) = build_all(t, rk, d, p, acc);
        let c = cs.last();
        if c.0 < t.len() {
            assert(c == t[p.0 as int].children[cs.len() - 1]);
            lemma_build_node(t, rk, c, a1);
            let (a2, r) = build_node(t, rk, c, a1);
            assert(extends(acc, a2));
        }
    }
}

proof fn lemma_build_first(t: Seq<NodeView>, rk: Seq<nat>, cs: Seq<NodeId>, p: NodeId, acc: Seq<A11yNodeView>)
    requires
        partly_ranked(t, rk),
        p.0 < t.len(),
        rk[p.0 as int] > 0,
        cs.len() <= t[p.0 as int].children.len(),
        cs == t[p.0 as int].children.take(cs.len() as int),
    ensures
        extends(acc, build_first(t, rk, cs, p, acc).0),
        build_first(t, rk, cs, p, acc).0.len() <= usize::MAX ==> {
            &&& (build_first(t, rk, cs, p, acc).1 matches Some(i) ==> acc.len() <= i < build_first(t, rk, cs, p, acc).0.len())
            &&& (children_before(acc) ==> children_before(build_first(t, rk, cs, p, acc).0))
        },
    decreases rk[p.0 as int], 0nat, cs.len(),
{
    if cs.len() > 0 {
        let d = cs.drop_last();
        assert(d == t[p.0 as int].children.take(d.len() as int));
        lemma_build_first(t, rk, d, p, acc);
        let (a1, r1) = build_first(t, rk, d, p, acc);
        let c = cs.last();
        if r1 is None && c.0 < t.len() {
            assert(c == t[p.0 as int].children[cs.len() - 1]);
            lemma_build_node(t, rk, c, a1);
        }
    }
}

/// In the accessibility tree of a page, every node's children come before
/// it (the tree is built bottom-up), and the root's node is last.
pub proof fn law_children_before_parents(t: Seq<NodeView>)
    requires
        forest_at(t, NodeId(0)),
        build_node(t, rank_at(t, NodeId(0)), NodeId(0), Seq::empty()).0.len() <= usize::MAX,
    ensures
        children_before(a11y_of(t)),
        build_node(t, rank_at(t, NodeId(0)), NodeId(0), Seq::empty()).1 matches Some(i) ==> i < a11y_of(t).len(),
{
    lemma_build_node(t, rank_at(t, NodeId(0)), NodeId(0), Seq::empty());
}

/// The role of an element follows its tag: `button` is a button, `a` a
/// link, `select` a combo box, `option` a menu item, `textarea` a text box,
/// `h1` to `h6` headings, `p` a paragraph, `img` an image; an `input` is a
/// checkbox or a radio button by its `type`, and a text box when the type is
/// missing or `text`. A radio input is never a checkbox.
pub proof fn law_roles_by_tag(t: Seq<NodeView>, id: NodeId, tag: Seq<char>)
    ensures
        tag == "button"@ ==> role_for(t, id, tag) == Role::Button,
        tag == "a"@ ==> role_for(t, id, tag) == Role::Link,
        tag == "input"@ && attribute_of(t, id, "type"@) == Some("radio"@) ==> role_for(t, id, tag) == Role::RadioButton,
        tag == "input"@ && attribute_of(t, id, "type"@) == Some("radio"@) ==> role_for(t, id, tag) != Role::Checkbox,
        tag == "input"@ && attribute_of(t, id, "type"@) == Some("checkbox"@) ==> role_for(t, id, tag) == Role::Checkbox,
        tag == "input"@ && attribute_of(t, id, "type"@) is None ==> role_for(t, id, tag) == Role::Textbox,
        tag == "input"@ && attribute_of(t, id, "type"@) == Some("text"@) ==> role_for(t, id, tag) == Role::Textbox,
        tag == "select"@ ==> role_for(t, id, tag) == Role::ComboBox,
        tag == "option"@ ==> role_for(t, id, tag) == Role::MenuItem,
        tag == "textarea"@ ==> role_for(t, id, tag) == Role::Textbox,
        tag == "h1"@ || tag == "h2"@ || tag == "h3"@ || tag == "h4"@ || tag == "h5"@ || tag == "h6"@
            ==> role_for(t, id, tag) == Role::Heading,
        tag == "p"@ ==> role_for(t, id, tag) == Role::Paragraph,
        tag == "img"@ ==> role_for(t, id, tag) == Role::Image,
        tag == "div"@ || tag == "span"@ ==> role_for(t, id, tag) == Role::Generic,
{
    reveal_strlit("button");
    reveal_strlit("a");
    reveal_strlit("input");
    reveal_strlit("select");
    reveal_strlit("option");
    reveal_strlit("textarea");
    reveal_strlit("h1");
    reveal_strlit("h2");
    reveal_strlit("h3");
    reveal_strlit("h4");
    reveal_strlit("h5");
    reveal_strlit("h6");
    reveal_strlit("p");
    reveal_strlit("img");
    reveal_strlit("div");
    reveal_strlit("span");
    reveal_strlit("checkbox");
    reveal_strlit("radio");
    reveal_strlit("text");
    assert("button"@.len() == 6 && "a"@.len() == 1 && "input"@.len() == 5 && "select"@.len() == 6);
    assert("option"@.len() == 6 && "textarea"@.len() == 8 && "p"@.len() == 1 && "img"@.len() == 3);
    assert("div"@.len() == 3 && "span"@.len() == 4 && "checkbox"@.len() == 8 && "radio"@.len() == 5);
    assert("h1"@.len() == 2 && "a"@[0] != "p"@[0] && "button"@[0] != "select"@[0] && "button"@[0] != "option"@[0]);
    assert("select"@[0] != "option"@[0] && "img"@[0] != "div"@[0]);
    assert("h1"@[1] != "h2"@[1] && "h1"@[1] != "h3"@[1] && "h1"@[1] != "h4"@[1] && "h1"@[1] != "h5"@[1]
        && "h1"@[1] != "h6"@[1]);
    assert("h2"@[1] != "h3"@[1] && "h2"@[1] != "h4"@[1] && "h2"@[1] != "h5"@[1] && "h2"@[1] != "h6"@[1]);
    assert("h3"@[1] != "h4"@[1] && "h3"@[1] != "h5"@[1] && "h3"@[1] != "h6"@[1]);
    assert("h4"@[1] != "h5"@[1] && "h4"@[1] != "h6"@[1] && "h5"@[1] != "h6"@[1]);
    assert("button"@ != "a"@ && "button"@ != "input"@ && "a"@ != "input"@);
    assert("radio"@ != "checkbox"@ && "text"@ != "checkbox"@ && "text"@ != "radio"@);
}

} // verus!
