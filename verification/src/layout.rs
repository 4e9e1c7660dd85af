//! Display types of DOM nodes: which nodes lay out as blocks, which flow
//! inline, and which are hidden.
use vstd::prelude::*;
use crate::dom::{attribute_of, DomTree, KindView, Namespace, NodeId, NodeKind, NodeView};
use crate::text::{contains_str, occurs_in, str_eq};

verus! {

/// Display type.
#[derive(Debug, Clone, Copy, PartialEq, Eq, Structural)]
pub enum Display {
    Block,
    Inline,
    Hidden,
}

/// Tags that lay out as blocks.
pub open spec fn is_block_tag(t: Seq<char>) -> bool {
    t == "div"@ || t == "p"@ || t == "h1"@ || t == "h2"@ || t == "h3"@ || t == "h4"@ || t == "h5"@
        || t == "h6"@ || t == "ul"@ || t == "ol"@ || t == "li"@ || t == "table"@ || t == "tr"@
        || t == "td"@ || t == "th"@ || t == "form"@ || t == "section"@ || t == "article"@
        || t == "header"@ || t == "footer"@ || t == "nav"@ || t == "main"@ || t == "aside"@
        || t == "blockquote"@ || t == "pre"@ || t == "hr"@ || t == "br"@ || t == "html"@ || t == "body"@
}

/// Tags that are never displayed.
pub open spec fn is_hidden_tag(t: Seq<char>) -> bool {
    t == "script"@ || t == "style"@ || t == "meta"@ || t == "link"@ || t == "title"@ || t == "head"@
}

/// The display type of node `id`: hidden when it is missing, has a `hidden`
/// attribute, or a style that says `display:none` (with or without a
/// space); else by its kind and tag.
pub open spec fn display_of(t: Seq<NodeView>, id: NodeId) -> Display {
    if id.0 >= t.len() {
        Display::Hidden
    } else if attribute_of(t, id, "hidden"@) is Some {
        Display::Hidden
    } else if attribute_of(t, id, "style"@) matches Some(st) && (occurs_in(st, "display:none"@) || occurs_in(
        st,
        "display: none"@,
    )) {
        Display::Hidden
    } else {
        match t[id.0 as int].kind {
            KindView::Element { tag, .. } => if is_block_tag(tag) {
                Display::Block
            } else if is_hidden_tag(tag) {
                Display::Hidden
            } else {
                Display::Inline
            },
            KindView::Text(_) => Display::Inline,
            _ => Display::Hidden,
        }
    }
}

fn tag_display(t: &str) -> (r: Display)
    ensures
        r == (if is_block_tag(t@) {
            Display::Block
        } else if is_hidden_tag(t@) {
            Display::Hidden
        } else {
            Display::Inline
        }),
{
    if str_eq(t, "div") || str_eq(t, "p") || str_eq(t, "h1") || str_eq(t, "h2") || str_eq(t, "h3")
        || str_eq(t, "h4") || str_eq(t, "h5") || str_eq(t, "h6") || str_eq(t, "ul") || str_eq(t, "ol")
        || str_eq(t, "li") || str_eq(t, "table") || str_eq(t, "tr") || str_eq(t, "td") || str_eq(t, "th")
        || str_eq(t, "form") || str_eq(t, "section") || str_eq(t, "article") || str_eq(t, "header")
        || str_eq(t, "footer") || str_eq(t, "nav") || str_eq(t, "main") || str_eq(t, "aside")
        || str_eq(t, "blockquote") || str_eq(t, "pre") || str_eq(t, "hr") || str_eq(t, "br")
        || str_eq(t, "html") || str_eq(t, "body") {
        Display::Block
    } else if str_eq(t, "script") || str_eq(t, "style") || str_eq(t, "meta") || str_eq(t, "link")
        || str_eq(t, "title") || str_eq(t, "head") {
        Display::Hidden
    } else {
        Display::Inline
    }
}

/// Determine the display type of a node.
pub fn display_type(dom: &DomTree, id: NodeId) -> (r: Display)
    ensures
        r == display_of(dom@, id),
{
    let node = match dom.get(id) {
        Some(n) => n,
        None => return Display::Hidden,
    };
    if dom.get_attribute(id, "hidden").is_some() {
        return Display::Hidden;
    }
    if let Some(style) = dom.get_attribute(id, "style") {
        if contains_str(style, "display:none") || contains_str(style, "display: none") {
            return Display::Hidden;
        }
    }
    match &node.kind {
        NodeKind::Element { tag_name, .. } => tag_display(tag_name.as_str()),
        NodeKind::Text { .. } => Display::Inline,
        _ => Display::Hidden,
    }
}

/// A `hidden` attribute hides any node.
pub proof fn law_hidden_attribute_hides(t: Seq<NodeView>, id: NodeId)
    requires
        attribute_of(t, id, "hidden"@) is Some,
    ensures
        display_of(t, id) == Display::Hidden,
{
}

/// How a visible element lays out, by its tag: the structural tags (`div`,
/// `p`, headings, lists, tables, forms, sections and the like, `html`,
/// `body`) are blocks; `script`, `style`, `meta`, `link`, `title` and `head`
/// are never displayed; phrasing tags such as `span`, `a`, `b`, `em`,
/// `strong` and `label` are inline. Text is inline.
pub proof fn law_display_by_tag(t: Seq<NodeView>, id: NodeId, tag: Seq<char>, ns: Namespace)
    requires
        id.0 < t.len(),
        attribute_of(t, id, "hidden"@) is None,
        attribute_of(t, id, "style"@) is None,
    ensures
        t[id.0 as int].kind == (KindView::Element { tag, namespace: ns }) && (tag == "div"@ || tag == "p"@ || tag == "h1"@ || tag == "h2"@ || tag == "h3"@ || tag == "h4"@ || tag == "h5"@ || tag == "h6"@ || tag == "ul"@ || tag == "ol"@ || tag == "li"@ || tag == "table"@ || tag == "tr"@ || tag == "td"@ || tag == "th"@ || tag == "form"@ || tag == "section"@ || tag == "article"@ || tag == "header"@ || tag == "footer"@ || tag == "nav"@ || tag == "main"@ || tag == "aside"@ || tag == "blockquote"@ || tag == "pre"@ || tag == "hr"@ || tag == "br"@ || tag == "html"@ || tag == "body"@) ==> display_of(t, id) == Display::Block,
        t[id.0 as int].kind == (KindView::Element { tag, namespace: ns }) && (tag == "script"@ || tag == "style"@ || tag == "meta"@ || tag == "link"@ || tag == "title"@ || tag == "head"@) ==> display_of(t, id) == Display::Hidden,
        t[id.0 as int].kind == (KindView::Element { tag, namespace: ns }) && (tag == "span"@ || tag == "a"@ || tag == "b"@ || tag == "em"@ || tag == "strong"@ || tag == "label"@) ==> display_of(t, id) == Display::Inline,
        t[id.0 as int].kind is Text ==> display_of(t, id) == Display::Inline,
{
    reveal_strlit("div");
    reveal_strlit("p");
    reveal_strlit("h1");
    reveal_strlit("h2");
    reveal_strlit("h3");
    reveal_strlit("h4");
    reveal_strlit("h5");
    reveal_strlit("h6");
    reveal_strlit("ul");
    reveal_strlit("ol");
    reveal_strlit("li");
    reveal_strlit("table");
    reveal_strlit("tr");
    reveal_strlit("td");
    reveal_strlit("th");
    reveal_strlit("form");
    reveal_strlit("section");
    reveal_strlit("article");
    reveal_strlit("header");
    reveal_strlit("footer");
    reveal_strlit("nav");
    reveal_strlit("main");
    reveal_strlit("aside");
    reveal_strlit("blockquote");
    reveal_strlit("pre");
    reveal_strlit("hr");
    reveal_strlit("br");
    reveal_strlit("html");
    reveal_strlit("body");
    reveal_strlit("script");
    reveal_strlit("style");
    reveal_strlit("meta");
    reveal_strlit("link");
    reveal_strlit("title");
    reveal_strlit("head");
    reveal_strlit("span");
    reveal_strlit("a");
    reveal_strlit("b");
    reveal_strlit("em");
    reveal_strlit("strong");
    reveal_strlit("label");
    assert("div"@.len() == 3 && "p"@.len() == 1 && "h1"@.len() == 2 && "h2"@.len() == 2 && "h3"@.len() == 2 && "h4"@.len() == 2 && "h5"@.len() == 2 && "h6"@.len() == 2 && "ul"@.len() == 2 && "ol"@.len() == 2 && "li"@.len() == 2 && "table"@.len() == 5 && "tr"@.len() == 2 && "td"@.len() == 2 && "th"@.len() == 2 && "form"@.len() == 4 && "section"@.len() == 7 && "article"@.len() == 7 && "header"@.len() == 6 && "footer"@.len() == 6);
    assert("nav"@.len() == 3 && "main"@.len() == 4 && "aside"@.len() == 5 && "blockquote"@.len() == 10 && "pre"@.len() == 3 && "hr"@.len() == 2 && "br"@.len() == 2 && "html"@.len() == 4 && "body"@.len() == 4 && "script"@.len() == 6 && "style"@.len() == 5 && "meta"@.len() == 4 && "link"@.len() == 4 && "title"@.len() == 5 && "head"@.len() == 4 && "span"@.len() == 4 && "a"@.len() == 1 && "b"@.len() == 1 && "em"@.len() == 2 && "strong"@.len() == 6 && "label"@.len() == 5);
    assert("script"@[0] != "header"@[0] && "script"@[0] != "footer"@[0] && "style"@[0] != "table"@[0] && "style"@[0] != "aside"@[0] && "meta"@[0] != "form"@[0] && "meta"@[1] != "main"@[1] && "meta"@[0] != "html"@[0] && "meta"@[0] != "body"@[0]);
    assert("link"@[0] != "form"@[0] && "link"@[0] != "main"@[0] && "link"@[0] != "html"@[0] && "link"@[0] != "body"@[0] && "title"@[1] != "table"@[1] && "title"@[0] != "aside"@[0] && "head"@[0] != "form"@[0] && "head"@[0] != "main"@[0]);
    assert("head"@[1] != "html"@[1] && "head"@[0] != "body"@[0] && "span"@[0] != "form"@[0] && "span"@[0] != "main"@[0] && "span"@[0] != "html"@[0] && "span"@[0] != "body"@[0] && "span"@[0] != "meta"@[0] && "span"@[0] != "link"@[0]);
    assert("span"@[0] != "head"@[0] && "a"@[0] != "p"@[0] && "b"@[0] != "p"@[0] && "em"@[0] != "h1"@[0] && "em"@[0] != "h2"@[0] && "em"@[0] != "h3"@[0] && "em"@[0] != "h4"@[0] && "em"@[0] != "h5"@[0]);
    assert("em"@[0] != "h6"@[0] && "em"@[0] != "ul"@[0] && "em"@[0] != "ol"@[0] && "em"@[0] != "li"@[0] && "em"@[0] != "tr"@[0] && "em"@[0] != "td"@[0] && "em"@[0] != "th"@[0] && "em"@[0] != "hr"@[0]);
    assert("em"@[0] != "br"@[0] && "strong"@[0] != "header"@[0] && "strong"@[0] != "footer"@[0] && "strong"@[1] != "script"@[1] && "label"@[0] != "table"@[0] && "label"@[0] != "aside"@[0] && "label"@[0] != "style"@[0] && "label"@[0] != "title"@[0]);
}

} // verus!
