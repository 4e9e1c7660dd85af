use browser_engine::api::find_script_nodes;
use browser_engine::braid::{
    browser_caps_to_braid, to_braid_cap, VOCAB_VERSION, WEB_AI_READ_NAME, WEB_DOM_READ_NAME, WEB_EGRESS_NAME,
    WEB_NAVIGATE_NAME,
};
use browser_engine::capability::{Capability, PrivacyLevel};
use browser_engine::digest::u64_le_bytes;
use browser_engine::dom::{DomTree, Namespace};
use browser_engine::escalation::{EscalationRecord, InferenceLevel};
use browser_engine::layout::{display_type, Display};
use browser_engine::net::{check_body_size, check_scheme, detect_mime, FetchRefusal, MAX_BODY_SIZE};

#[test]
fn capability_names_are_dotted() {
    assert_eq!(WEB_DOM_READ_NAME, "web.dom.read");
    assert_eq!(WEB_NAVIGATE_NAME, "web.navigate");
    assert_eq!(WEB_EGRESS_NAME, "web.egress");
    assert_eq!(WEB_AI_READ_NAME, "web.ai.read");
}

#[test]
fn web_caps_are_foreign_to_kernel() {
    assert_ne!(WEB_DOM_READ_NAME, "signal.emit");
    assert_ne!(WEB_EGRESS_NAME, "compute.remote");
}

#[test]
fn dom_read_maps_to_web_dom_read() {
    let braid = to_braid_cap(Capability::DomRead).unwrap();
    assert_eq!(braid, "web.dom.read");
}

#[test]
fn click_maps_to_web_dom_click() {
    let braid = to_braid_cap(Capability::DomActionClick).unwrap();
    assert_eq!(braid, "web.dom.click");
}

#[test]
fn media_has_no_mapping() {
    assert!(to_braid_cap(Capability::MediaPlay).is_none());
}

#[test]
fn medium_privacy_maps_to_braid_caps() {
    let browser_caps = PrivacyLevel::Medium.capabilities();
    let names = browser_caps_to_braid(&browser_caps);
    assert!(names.len() >= 5);
    assert!(names.contains(&"web.dom.read"));
    assert!(names.contains(&"web.dom.click"));
    assert!(names.contains(&"web.ai.read"));
}

#[test]
fn off_privacy_maps_to_empty() {
    let browser_caps = PrivacyLevel::Off.capabilities();
    let braid_caps = browser_caps_to_braid(&browser_caps);
    assert!(braid_caps.is_empty());
}

#[test]
fn low_privacy_maps_in_order() {
    assert_eq!(to_braid_cap(Capability::NetworkRead), Some("web.dom.read"));
    assert_eq!(to_braid_cap(Capability::CodeDynamic), None);
    let low = browser_caps_to_braid(&PrivacyLevel::Low.capabilities());
    assert_eq!(low, vec!["web.dom.read", "web.observe", "web.ai.read"]);
    assert_eq!(VOCAB_VERSION, 1);
}

#[test]
fn test_escalation_record_level() {
    let rec = EscalationRecord::new("test reason", InferenceLevel::Blackbox);
    assert_eq!(rec.level, InferenceLevel::Blackbox);
    assert_eq!(rec.reason, "test reason");
}

#[test]
fn test_escalation_record_builder() {
    let rec = EscalationRecord::new("capability uncertain", InferenceLevel::Fuzzy)
        .blocked_by("dynamic property access")
        .evidence("src/app.js:42")
        .allowed_output("conservative_capability");

    assert_eq!(rec.blocked_by.len(), 1);
    assert_eq!(rec.evidence_paths.len(), 1);
    assert_eq!(rec.allowed_outputs.len(), 1);
}

#[test]
fn escalation_builder_keeps_order() {
    let rec = EscalationRecord::new("r", InferenceLevel::Symbolic)
        .capability(Capability::NetworkEgress)
        .capability(Capability::DomRead)
        .evidence("a")
        .evidence("b");
    assert_eq!(rec.possible_capabilities, vec![Capability::NetworkEgress, Capability::DomRead]);
    assert_eq!(rec.evidence_paths, vec!["a".to_string(), "b".to_string()]);
    assert!(rec.blocked_by.is_empty());
}

#[test]
fn display_types() {
    let mut dom = DomTree::new();
    let root = dom.root();
    let div = dom.create_element("div", Namespace::Html);
    let span = dom.create_element("span", Namespace::Html);
    let script = dom.create_element("script", Namespace::Html);
    let hidden = dom.create_element("p", Namespace::Html);
    let styled = dom.create_element("p", Namespace::Html);
    let text = dom.create_text("t");
    let comment = dom.create_comment("c");
    dom.set_attribute(hidden, "hidden", "");
    dom.set_attribute(styled, "style", "color: red; display: none");
    for n in [div, span, script, hidden, styled, text, comment] {
        dom.append_child(root, n);
    }
    assert_eq!(display_type(&dom, div), Display::Block);
    assert_eq!(display_type(&dom, span), Display::Inline);
    assert_eq!(display_type(&dom, script), Display::Hidden);
    assert_eq!(display_type(&dom, hidden), Display::Hidden);
    assert_eq!(display_type(&dom, styled), Display::Hidden);
    assert_eq!(display_type(&dom, text), Display::Inline);
    assert_eq!(display_type(&dom, comment), Display::Hidden);
    assert_eq!(display_type(&dom, root), Display::Hidden);
}

#[test]
fn scripts_found_in_document_order() {
    let mut dom = DomTree::new();
    let root = dom.root();
    let html = dom.create_element("html", Namespace::Html);
    dom.append_child(root, html);
    let head = dom.create_element("head", Namespace::Html);
    dom.append_child(html, head);
    let s1 = dom.create_element("script", Namespace::Html);
    dom.append_child(head, s1);
    let body = dom.create_element("body", Namespace::Html);
    dom.append_child(html, body);
    let div = dom.create_element("div", Namespace::Html);
    dom.append_child(body, div);
    let s2 = dom.create_element("script", Namespace::Html);
    dom.append_child(div, s2);
    let s3 = dom.create_element("script", Namespace::Html);
    dom.append_child(body, s3);
    assert_eq!(find_script_nodes(&dom), vec![s1, s2, s3]);
}

#[test]
fn fetch_rules() {
    assert!(check_scheme("http").is_ok());
    assert!(check_scheme("https").is_ok());
    assert_eq!(
        check_scheme("ftp"),
        Err(FetchRefusal::UnsupportedContentType("Unsupported scheme: ftp".to_string()))
    );
    assert!(check_body_size(MAX_BODY_SIZE).is_ok());
    assert_eq!(
        check_body_size(MAX_BODY_SIZE + 1),
        Err(FetchRefusal::ResponseTooLarge { size: MAX_BODY_SIZE + 1, limit: MAX_BODY_SIZE })
    );
    let headers = vec![
        ("X-Other".to_string(), "a".to_string()),
        ("Content-Type".to_string(), "text/html; charset=utf-8".to_string()),
        ("content-type".to_string(), "text/plain".to_string()),
    ];
    assert_eq!(detect_mime(&headers), "text/html");
    assert_eq!(detect_mime(&[]), "application/octet-stream");
}

#[test]
fn byte_encodings() {
    assert_eq!(u64_le_bytes(0x0102030405060708), vec![8, 7, 6, 5, 4, 3, 2, 1]);
}
