use browser_engine::a11y::{build, A11yTree, Role};
use browser_engine::capability::Capability;
use browser_engine::dom::{DomTree, Namespace, NodeId};
use browser_engine::pulse::{build_frames, encode_action, encode_action_result, encode_affordances, Frame};
use browser_engine::semantic::{affordances_for, compute_affordances, Action, Affordance, ElementHandle, FieldType};

fn page(fill: impl FnOnce(&mut DomTree, NodeId)) -> DomTree {
    let mut dom = DomTree::new();
    let root = dom.root();
    let html = dom.create_element("html", Namespace::Html);
    dom.append_child(root, html);
    let head = dom.create_element("head", Namespace::Html);
    dom.append_child(html, head);
    let body = dom.create_element("body", Namespace::Html);
    dom.append_child(html, body);
    fill(&mut dom, body);
    dom
}

fn element(dom: &mut DomTree, parent: NodeId, tag: &str, attrs: &[(&str, &str)], text: Option<&str>) -> NodeId {
    let e = dom.create_element(tag, Namespace::Html);
    for (k, v) in attrs {
        dom.set_attribute(e, k, v);
    }
    dom.append_child(parent, e);
    if let Some(t) = text {
        let n = dom.create_text(t);
        dom.append_child(e, n);
    }
    e
}

/// The accessibility tree, its affordances, and each node's handle with its
/// label.
fn analyse(fill: impl FnOnce(&mut DomTree, NodeId)) -> (A11yTree, Vec<Affordance>, Vec<(ElementHandle, String)>) {
    let a11y = build(&page(fill));
    let affs = affordances_for(&a11y);
    let labels = a11y.nodes.iter().enumerate().map(|(i, n)| (ElementHandle(i as u64), n.label.clone())).collect();
    (a11y, affs, labels)
}

fn encoded(fill: impl FnOnce(&mut DomTree, NodeId)) -> String {
    let (_, affs, labels) = analyse(fill);
    encode_affordances(&affs, &labels)
}

#[test]
fn test_encode_action_string() {
    let s = encode_action("click", ElementHandle(5));
    assert_eq!(s, "do action click 5");
}

#[test]
fn test_encode_result_string() {
    let s = encode_action_result("click", ElementHandle(5), "done");
    assert_eq!(s, "ok action click 5 done");
}

#[test]
fn test_encode_button() {
    let e = encoded(|d, b| {
        element(d, b, "button", &[], Some("Submit"));
    });
    assert!(e.contains("ok affordances"));
    assert!(e.contains("click"));
    assert!(e.contains("Submit"));
}

#[test]
fn test_encode_link() {
    let e = encoded(|d, b| {
        element(d, b, "a", &[("href", "/home")], Some("Home"));
    });
    assert!(e.contains("click"));
    assert!(e.contains("Home"));
}

#[test]
fn test_encode_textbox() {
    let e = encoded(|d, b| {
        element(d, b, "input", &[("type", "text"), ("aria-label", "Name")], None);
    });
    assert!(e.contains("fill"));
    assert!(e.contains("Name"));
}

#[test]
fn test_encode_heading() {
    let e = encoded(|d, b| {
        element(d, b, "h1", &[], Some("Hello"));
    });
    assert!(e.contains("read"));
    assert!(e.contains("Hello"));
}

#[test]
fn test_build_frames() {
    let (_, affs, labels) = analyse(|d, b| {
        element(d, b, "button", &[], Some("OK"));
    });
    match build_frames(&affs, &labels) {
        Frame::OkAffordances { affordances } => {
            let click = affordances.iter().find(|a| a.action == "click");
            assert!(click.is_some(), "Expected a click affordance, got: {:?}", affordances);
            assert_eq!(click.unwrap().label, "OK");
        }
        _ => panic!("Expected OkAffordances frame"),
    }
}

#[test]
fn test_empty_affordances() {
    let e = encoded(|_, _| {});
    assert!(e.contains("ok affordances"));
}

#[test]
fn test_button_affordance() {
    let (_, affs, _) = analyse(|d, b| {
        element(d, b, "button", &[], Some("Click me"));
    });
    assert!(affs.iter().any(|a| matches!(a.action, Action::Click)));
}

#[test]
fn test_link_affordance() {
    let (_, affs, _) = analyse(|d, b| {
        element(d, b, "a", &[("href", "/home")], Some("Home"));
    });
    assert!(affs.iter().any(|a| matches!(a.action, Action::Click)));
}

#[test]
fn test_readtext_affordance() {
    let (_, affs, _) = analyse(|d, b| {
        element(d, b, "h1", &[], Some("Title"));
    });
    assert!(affs.iter().any(|a| matches!(a.action, Action::ReadText)));
}

#[test]
fn test_textbox_affordance() {
    let (_, affs, _) = analyse(|d, b| {
        element(d, b, "input", &[("type", "text"), ("aria-label", "Name")], None);
    });
    assert!(affs.iter().any(|a| matches!(a.action, Action::Fill { .. })));
}

#[test]
fn test_checkbox_affordance() {
    let (_, affs, _) = analyse(|d, b| {
        element(d, b, "input", &[("type", "checkbox")], None);
    });
    assert!(affs.iter().any(|a| matches!(a.action, Action::Click)));
}

#[test]
fn test_combo_affordances() {
    let (_, affs, _) = analyse(|d, b| {
        let s = element(d, b, "select", &[], None);
        element(d, s, "option", &[], Some("A"));
    });
    assert!(affs.iter().any(|a| matches!(a.action, Action::Select)));
}

#[test]
fn test_required_capability() {
    let (a11y, affs, _) = analyse(|d, b| {
        element(d, b, "button", &[], Some("OK"));
    });
    let click = affs.iter().find(|a| matches!(a.action, Action::Click)).unwrap();
    assert_eq!(click.required_capability, Capability::DomActionClick);
    let target = &a11y.nodes[click.target.0 as usize];
    assert_eq!(target.role, Role::Button);
}

#[test]
fn exact_frame_text() {
    let affs = compute_affordances(&Role::ComboBox, "", ElementHandle(3));
    let labels = vec![(ElementHandle(3), "Pick".to_string()), (ElementHandle(3), "Other".to_string())];
    assert_eq!(
        encode_affordances(&affs, &labels),
        "ok affordances [3:click:DomActionClick \"Pick\", 3:select:DomActionClick \"Pick\"]"
    );
    let fill = compute_affordances(&Role::Textbox, "x", ElementHandle(0));
    assert_eq!(encode_affordances(&fill, &[]), "ok affordances [0:fill:Text:DomActionType \"\"]");
    assert_eq!(Action::Fill { field_type: FieldType::Email }.name(), "fill:Email");
    assert!(compute_affordances(&Role::Generic, "", ElementHandle(1)).is_empty());
    assert_eq!(compute_affordances(&Role::Generic, "t", ElementHandle(1))[0].required_capability, Capability::AiRead);
}
