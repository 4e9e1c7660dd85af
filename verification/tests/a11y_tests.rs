use browser_engine::a11y::{build, A11yTree, Role};
use browser_engine::dom::{DomTree, Namespace, NodeId};

/// A page as an HTML parser builds it: document, html, head and body, with
/// `fill` adding the content of the body.
fn page(fill: impl FnOnce(&mut DomTree, NodeId)) -> DomTree {
    let mut dom = DomTree::new();
    let root = dom.root();
    let html = dom.create_element("html", Namespace::Html);
    dom.append_child(root, html);
    let head = dom.create_element("head", Namespace::Html);
    dom.append_child(html, head);
    let body = dom.create_element("body", Namespace::Html);
    dom.append_child(html, body);
    fill(&mut dom, body);
    dom
}

fn element(dom: &mut DomTree, parent: NodeId, tag: &str, attrs: &[(&str, &str)], text: Option<&str>) -> NodeId {
    let e = dom.create_element(tag, Namespace::Html);
    for (k, v) in attrs {
        dom.set_attribute(e, k, v);
    }
    dom.append_child(parent, e);
    if let Some(t) = text {
        let n = dom.create_text(t);
        dom.append_child(e, n);
    }
    e
}

fn build_page(fill: impl FnOnce(&mut DomTree, NodeId)) -> A11yTree {
    build(&page(fill))
}

#[test]
fn test_empty_tree() {
    let tree = build_page(|_, _| {});
    assert!(!tree.nodes.is_empty());
}

#[test]
fn test_button_role() {
    let tree = build_page(|d, b| {
        element(d, b, "button", &[], Some("Click me"));
    });
    let button = tree.nodes.iter().find(|n| n.role == Role::Button);
    assert!(button.is_some());
    assert_eq!(button.unwrap().label, "Click me");
}

#[test]
fn test_link_role() {
    let tree = build_page(|d, b| {
        element(d, b, "a", &[("href", "/home")], Some("Home"));
    });
    let link = tree.nodes.iter().find(|n| n.role == Role::Link);
    assert!(link.is_some());
    assert_eq!(link.unwrap().label, "Home");
}

#[test]
fn test_heading_role() {
    let tree = build_page(|d, b| {
        element(d, b, "h1", &[], Some("Title"));
    });
    let heading = tree.nodes.iter().find(|n| n.role == Role::Heading);
    assert!(heading.is_some());
}

#[test]
fn test_input_textbox() {
    let tree = build_page(|d, b| {
        element(d, b, "input", &[("type", "text"), ("aria-label", "Name")], None);
    });
    let textbox = tree.nodes.iter().find(|n| n.role == Role::Textbox);
    assert!(textbox.is_some());
    assert_eq!(textbox.unwrap().label, "Name");
}

#[test]
fn test_input_checkbox() {
    let tree = build_page(|d, b| {
        element(d, b, "input", &[("type", "checkbox"), ("checked", "")], None);
    });
    let checkbox = tree.nodes.iter().find(|n| n.role == Role::Checkbox);
    assert!(checkbox.is_some());
    assert_eq!(checkbox.unwrap().states.checked, Some(true));
}

#[test]
fn test_disabled_state() {
    let tree = build_page(|d, b| {
        element(d, b, "button", &[("disabled", "")], Some("Off"));
    });
    let button = tree.nodes.iter().find(|n| n.role == Role::Button);
    assert!(button.is_some());
    assert!(button.unwrap().states.disabled);
}

#[test]
fn test_image_alt() {
    let tree = build_page(|d, b| {
        element(d, b, "img", &[("alt", "Logo"), ("src", "logo.png")], None);
    });
    let img = tree.nodes.iter().find(|n| n.role == Role::Image);
    assert!(img.is_some());
    assert_eq!(img.unwrap().label, "Logo");
}

#[test]
fn test_paragraph() {
    let tree = build_page(|d, b| {
        element(d, b, "p", &[], Some("Hello world"));
    });
    let p = tree.nodes.iter().find(|n| n.role == Role::Paragraph);
    assert!(p.is_some());
    assert_eq!(p.unwrap().label, "Hello world");
}

#[test]
fn children_come_before_parents() {
    let tree = build_page(|d, b| {
        element(d, b, "button", &[], Some("Go"));
    });
    for (i, n) in tree.nodes.iter().enumerate() {
        for &c in &n.children {
            assert!(c < i);
        }
    }
    // The html element is built last, as the root of the tree.
    assert_eq!(tree.nodes.last().unwrap().element, NodeId(1));
}

#[test]
fn labels_prefer_aria_then_title_then_value() {
    let tree = build_page(|d, b| {
        element(d, b, "button", &[("title", "T"), ("aria-label", "A")], Some("text"));
        element(d, b, "button", &[("title", "T")], Some("text"));
        element(d, b, "input", &[("value", "V")], None);
        element(d, b, "input", &[("value", "")], None);
        element(d, b, "img", &[], None);
        element(d, b, "select", &[("aria-expanded", "true")], None);
        element(d, b, "div", &[("aria-checked", "false"), ("autofocus", "")], Some("  spaced  "));
    });
    let labels: Vec<&str> = tree.nodes.iter().filter(|n| n.role != Role::Generic || n.label == "spaced").map(|n| n.label.as_str()).collect();
    assert!(labels.contains(&"A"));
    assert!(labels.contains(&"T"));
    assert!(labels.contains(&"V"));
    assert!(labels.contains(&"[image]"));
    let combo = tree.nodes.iter().find(|n| n.role == Role::ComboBox).unwrap();
    assert_eq!(combo.states.expanded, Some(true));
    let div = tree.nodes.iter().find(|n| n.role == Role::Generic && n.label == "spaced" && n.states.focused).unwrap();
    assert_eq!(div.states.checked, Some(false));
}

#[test]
fn whitespace_text_and_comments_make_no_node() {
    let tree = build_page(|d, b| {
        let t = d.create_text("   ");
        d.append_child(b, t);
        let c = d.create_comment("note");
        d.append_child(b, c);
    });
    assert_eq!(tree.nodes.len(), 3);
    assert!(tree.nodes.iter().all(|n| n.label.is_empty()));
}
