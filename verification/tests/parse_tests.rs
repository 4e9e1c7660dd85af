use browser_engine::dom::{Namespace, NodeId};
use browser_engine::api::load_scripts;
use browser_engine::dom::DomTree;
use browser_engine::parse::{build_from_nodes, convert_events, namespace_for, parse_html, NodeHead, ParseError, ParseEvent};

fn open(tag: &str, attrs: &[(&str, &str)]) -> ParseEvent {
    ParseEvent::Open {
        tag: tag.to_string(),
        namespace_url: "http://www.w3.org/1999/xhtml".to_string(),
        attributes: attrs.iter().map(|(k, v)| (k.to_string(), v.to_string())).collect(),
    }
}

#[test]
fn events_build_nested_tree() {
    // <html><head></head><body><div class="test" id="main">content</div></body></html>
    let events = vec![
        open("html", &[]),
        open("head", &[]),
        ParseEvent::Close,
        open("body", &[]),
        open("div", &[("class", "test"), ("id", "main")]),
        ParseEvent::Text("content".to_string()),
        ParseEvent::Close,
        ParseEvent::Close,
        ParseEvent::Close,
    ];
    let dom = convert_events(&events);
    assert_eq!(dom.len(), 6);
    let root = dom.root();
    let html = dom.children(root)[0];
    assert_eq!(dom.tag_name(html), Some("html"));
    let body = dom.children(html).iter().copied().find(|&id| dom.tag_name(id) == Some("body")).unwrap();
    let div = dom.children(body)[0];
    assert_eq!(dom.tag_name(div), Some("div"));
    assert_eq!(dom.get_attribute(div, "class"), Some("test"));
    assert_eq!(dom.get_attribute(div, "id"), Some("main"));
    assert_eq!(dom.text_content(div), "content");
    assert_eq!(dom.parent(div), Some(body));
    assert!(dom.is_acyclic());
}

#[test]
fn empty_text_is_dropped_and_extra_closes_are_ignored() {
    let events = vec![
        ParseEvent::Close,
        open("p", &[]),
        ParseEvent::Text(String::new()),
        ParseEvent::Comment("note".to_string()),
        ParseEvent::Close,
        ParseEvent::Close,
        ParseEvent::Text("tail".to_string()),
    ];
    let dom = convert_events(&events);
    assert_eq!(dom.len(), 4);
    assert_eq!(dom.children(NodeId(0)), &[NodeId(1), NodeId(3)]);
    assert_eq!(dom.children(NodeId(1)), &[NodeId(2)]);
    assert_eq!(dom.text_content(NodeId(0)), "tail");
}

#[test]
fn namespaces_by_url() {
    assert_eq!(namespace_for("http://www.w3.org/2000/svg"), Namespace::Svg);
    assert_eq!(namespace_for("http://www.w3.org/1998/Math/MathML"), Namespace::MathMl);
    assert_eq!(namespace_for("http://www.w3.org/1999/xhtml"), Namespace::Html);
    assert_eq!(namespace_for(""), Namespace::Html);
}

#[test]
fn test_parse_simple() {
    let html = r#"<html><body><h1>Hello</h1></body></html>"#;
    let dom = parse_html(html).unwrap();
    assert!(dom.len() > 5); // document + html + head + body + h1 + text
}

#[test]
fn test_parse_empty() {
    let dom = parse_html("").unwrap();
    assert!(dom.len() > 0);
}

#[test]
fn test_parse_attributes() {
    let html = r#"<div class="test" id="main">content</div>"#;
    let dom = parse_html(html).unwrap();
    let root = dom.root();
    let html_node = dom.children(root)[0];
    let body = dom.children(html_node).iter().find(|&&id| dom.tag_name(id) == Some("body")).copied().unwrap();
    let div = dom.children(body)[0];
    assert_eq!(dom.tag_name(div), Some("div"));
    assert_eq!(dom.get_attribute(div, "class"), Some("test"));
    assert_eq!(dom.get_attribute(div, "id"), Some("main"));
}

#[test]
fn test_parse_nesting() {
    let html = r#"<ul><li>A</li><li>B</li></ul>"#;
    let dom = parse_html(html).unwrap();
    assert!(dom.len() > 5);
}

#[test]
fn test_parse_malformed() {
    let html = r#"<div><p>unclosed<div>new</div>"#;
    let dom = parse_html(html).unwrap();
    assert!(dom.len() > 0);
}

#[test]
fn parse_keeps_text_comments_and_namespaces() {
    let dom: DomTree = parse_html("<p>a<!--c--></p><svg><circle/></svg>").unwrap();
    let html_node = dom.children(dom.root())[0];
    let body = dom.children(html_node)[1];
    assert_eq!(dom.tag_name(body), Some("body"));
    let p = dom.children(body)[0];
    assert_eq!(dom.text_content(p), "a");
    assert_eq!(dom.children(p).len(), 2);
    let svg = dom.children(body)[1];
    assert_eq!(dom.get(svg).unwrap().kind, browser_engine::dom::NodeKind::Element {
        tag_name: "svg".to_string(),
        namespace: Namespace::Svg,
    });
    assert!(dom.is_acyclic());
}

#[test]
fn build_from_nodes_follows_parents() {
    let shape = vec![
        (0, NodeHead::Other),
        (0, NodeHead::Element { tag: "div".to_string(), namespace_url: "http://www.w3.org/1999/xhtml".to_string() }),
        (1, NodeHead::Text("hi".to_string())),
        (1, NodeHead::Text(String::new())),
        (0, NodeHead::Comment("note".to_string())),
    ];
    let attrs = vec![vec![], vec![("id".to_string(), "x".to_string())], vec![], vec![], vec![]];
    let dom = build_from_nodes(&shape, &attrs);
    assert_eq!(dom.len(), 4);
    assert_eq!(dom.children(NodeId(0)), &[NodeId(1), NodeId(3)]);
    assert_eq!(dom.get_attribute(NodeId(1), "id"), Some("x"));
    assert_eq!(dom.text_content(NodeId(1)), "hi");
}

#[test]
fn parse_error_text() {
    assert_eq!(ParseError::Parse("bad".to_string()).message(), "parse error: bad");
}

#[test]
fn load_scripts_transpiles_the_scripts_that_parse() {
    let html = "<script>var x = 1;</script><p>t</p><script>var {{{{</script><script>foo.bar();</script>";
    let page = load_scripts(html).unwrap();
    assert_eq!(page.scripts_found, 3);
    assert_eq!(page.results.len(), 2);
    assert_eq!(page.results[0].terms, vec!["variable_declaration".to_string()]);
    assert_eq!(page.results[1].terms, vec!["method_call".to_string()]);
    assert!(page.node_count > 5);
}
