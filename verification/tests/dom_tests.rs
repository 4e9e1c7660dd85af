use browser_engine::dom::{DomTree, Namespace, NodeId};

#[test]
fn test_new_tree_has_root() {
    let tree = DomTree::new();
    assert_eq!(tree.root(), NodeId(0));
    assert_eq!(tree.len(), 1);
}

#[test]
fn test_create_element() {
    let mut tree = DomTree::new();
    let div = tree.create_element("div", Namespace::Html);
    assert_eq!(tree.tag_name(div), Some("div"));
}

#[test]
fn test_append_child() {
    let mut tree = DomTree::new();
    let root = tree.root();
    let div = tree.create_element("div", Namespace::Html);
    tree.append_child(root, div);
    assert_eq!(tree.children(root), &[div]);
    assert_eq!(tree.parent(div), Some(root));
}

#[test]
fn test_attributes() {
    let mut tree = DomTree::new();
    let div = tree.create_element("div", Namespace::Html);
    tree.set_attribute(div, "class", "test");
    assert_eq!(tree.get_attribute(div, "class"), Some("test"));
}

#[test]
fn test_text_content() {
    let mut tree = DomTree::new();
    let root = tree.root();
    let div = tree.create_element("div", Namespace::Html);
    let text = tree.create_text("hello");
    tree.append_child(root, div);
    tree.append_child(div, text);
    assert_eq!(tree.text_content(div), "hello");
}

#[test]
fn test_acyclic() {
    let mut tree = DomTree::new();
    let root = tree.root();
    let div = tree.create_element("div", Namespace::Html);
    tree.append_child(root, div);
    assert!(tree.is_acyclic());
}

#[test]
fn moving_a_child_leaves_its_old_parent() {
    let mut tree = DomTree::new();
    let root = tree.root();
    let a = tree.create_element("div", Namespace::Html);
    let b = tree.create_element("span", Namespace::Html);
    tree.append_child(root, a);
    tree.append_child(a, b);
    tree.append_child(root, b);
    assert!(tree.children(a).is_empty());
    assert_eq!(tree.children(root), &[a, b]);
    assert_eq!(tree.parent(b), Some(root));
}

#[test]
fn setting_an_attribute_twice_keeps_the_last_value() {
    let mut tree = DomTree::new();
    let div = tree.create_element("div", Namespace::Html);
    tree.set_attribute(div, "id", "a");
    tree.set_attribute(div, "class", "c");
    tree.set_attribute(div, "id", "b");
    assert_eq!(tree.get_attribute(div, "id"), Some("b"));
    assert_eq!(tree.get_attribute(div, "class"), Some("c"));
    assert_eq!(tree.get_attribute(div, "title"), None);
    assert_eq!(tree.get_attribute(NodeId(99), "id"), None);
}

#[test]
fn text_content_joins_descendants_in_order() {
    let mut tree = DomTree::new();
    let root = tree.root();
    let p = tree.create_element("p", Namespace::Html);
    let t1 = tree.create_text("Hello ");
    let em = tree.create_element("em", Namespace::Html);
    let t2 = tree.create_text("world");
    let c = tree.create_comment("skip me");
    tree.append_child(root, p);
    tree.append_child(p, t1);
    tree.append_child(p, em);
    tree.append_child(em, t2);
    tree.append_child(p, c);
    assert_eq!(tree.text_content(p), "Hello world");
    assert_eq!(tree.text_content(root), "Hello world");
    assert_eq!(tree.text_content(NodeId(42)), "");
}

#[test]
fn a_cycle_is_detected() {
    let mut tree = DomTree::new();
    let root = tree.root();
    let a = tree.create_element("div", Namespace::Html);
    tree.append_child(root, a);
    tree.append_child(a, root);
    assert!(!tree.is_acyclic());
}

#[test]
fn text_content_ignores_cycles_outside_the_subtree() {
    let mut tree = DomTree::new();
    let div = tree.create_element("div", Namespace::Html);
    let text = tree.create_text("hello");
    tree.append_child(div, text);
    let a = tree.create_element("span", Namespace::Html);
    let b = tree.create_element("span", Namespace::Html);
    tree.append_child(a, b);
    tree.append_child(b, a);
    assert!(!tree.is_acyclic());
    assert_eq!(tree.text_content(div), "hello");
    assert_eq!(tree.text_content(text), "hello");
    assert_eq!(tree.text_content(NodeId(99)), "");
}

#[test]
fn moving_a_subtree_keeps_the_tree_acyclic() {
    let mut tree = DomTree::new();
    let root = tree.root();
    let a = tree.create_element("div", Namespace::Html);
    let b = tree.create_element("p", Namespace::Html);
    let c = tree.create_element("span", Namespace::Html);
    tree.append_child(root, a);
    tree.append_child(a, b);
    tree.append_child(root, c);
    // Move a (with b under it) below c, which is outside a's subtree.
    tree.append_child(c, a);
    assert!(tree.is_acyclic());
    assert_eq!(tree.parent(a), Some(c));
    assert_eq!(tree.children(root), &[c]);
    assert_eq!(tree.children(c), &[a]);
    assert_eq!(tree.children(a), &[b]);
}

#[test]
fn cloned_tree_is_independent() {
    let mut t = DomTree::new();
    let a = t.create_element("div", Namespace::Html);
    t.append_child(t.root(), a);
    t.set_attribute(a, "id", "x");
    let mut u = t.clone();
    let b = u.create_element("p", Namespace::Html);
    u.append_child(a, b);
    u.append_child(b, a);
    assert!(t.is_acyclic());
    assert!(!u.is_acyclic());
    assert_eq!(t.len(), 2);
    assert_eq!(u.len(), 3);
    assert_eq!(u.get_attribute(a, "id"), Some("x"));
}
