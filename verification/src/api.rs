//! Page inspection behind the HTTP surface: finding the script elements of
//! a parsed page.
use vstd::prelude::*;
use crate::parse::{html_nodes, flat_run, parse_html, parse_result, ParseError};
use crate::transpile::{default_strategies, js_parse, parsed_items, result_of, transpile, TranspileResult};
use crate::dom::{text_of, forest_at, is_forest, lemma_forest_at, partly_ranked, rank_at, tag_of, DomTree, NodeId, NodeView};

verus! {

/// Request to parse HTML and get the semantic graph.
#[derive(Debug, Clone)]
pub struct ParseRequest {
    pub html: String,
}

/// The size of the semantic graph of a page.
#[derive(Debug, Clone, Copy, PartialEq, Eq)]
pub struct ParseResponse {
    pub node_count: usize,
    pub affordance_count: usize,
}

/// The nodes under `id` (itself included) whose tag is `tag`, in document
/// order, following children along the ranking `r`.
pub open spec fn tagged_from(t: Seq<NodeView>, r: Seq<nat>, id: NodeId, tag: Seq<char>) -> Seq<NodeId>
    decreases r[id.0 as int], 1nat, 0nat
    when partly_ranked(t, r) && id.0 < t.len() && r[id.0 as int] > 0
{
    let own: Seq<NodeId> = if tag_of(t, id) == Some(tag) { seq![id] } else { Seq::empty() };
    own + tagged_in_list(t, r, t[id.0 as int].children, id, tag)
}

/// The nodes with tag `tag` under the children `cs` (a prefix of `p`'s
/// children), in document order.
pub open spec fn tagged_in_list(t: Seq<NodeView>, r: Seq<nat>, cs: Seq<NodeId>, p: NodeId, tag: Seq<char>) -> Seq<NodeId>
    decreases r[p.0 as int], 0nat, cs.len()
    when partly_ranked(t, r) && p.0 < t.len() && r[p.0 as int] > 0 && cs.len() <= t[p.0 as int].children.len()
        && cs == t[p.0 as int].children.take(cs.len() as int)
{
    if cs.len() == 0 {
        Seq::empty()
    } else {
        let c = cs.last();
        let before = tagged_in_list(t, r, cs.drop_last(), p, tag);
        if c.0 < t.len() {
            proof {
                assert(c == t[p.0 as int].children[cs.len() - 1]);
            }
            before + tagged_from(t, r, c, tag)
        } else {
            before
        }
    }
}

/// The nodes under `id` (itself included) whose tag is `tag`, in document
/// order; none under a node that does not exist.
pub open spec fn tagged_under(t: Seq<NodeView>, id: NodeId, tag: Seq<char>) -> Seq<NodeId> {
    if id.0 < t.len() {
        tagged_from(t, rank_at(t, id), id, tag)
    } else {
        Seq::empty()
    }
}

/// Collects, in document order, the nodes under `node_id` whose tag is
/// `target_tag`.
pub fn walk_for_tag(dom: &DomTree, node_id: NodeId, target_tag: &str, out: &mut Vec<NodeId>)
    requires
        is_forest(dom@) || node_id.0 >= dom@.len() || forest_at(dom@, node_id),
    ensures
        final(out)@ == old(out)@ + tagged_under(dom@, node_id, target_tag@),
{
    if node_id.0 >= dom.len() {
        proof {
            assert(out@ =~= old(out)@ + Seq::<NodeId>::empty());
        }
        return;
    }
    proof {
        if is_forest(dom@) {
            lemma_forest_at(dom@, node_id);
        }
    }
    walk_ranked(dom, node_id, target_tag, out, Ghost(rank_at(dom@, node_id)));
}

fn walk_ranked(dom: &DomTree, node_id: NodeId, target_tag: &str, out: &mut Vec<NodeId>, Ghost(r): Ghost<Seq<nat>>)
    requires
        partly_ranked(dom@, r),
        node_id.0 < dom@.len(),
        r[node_id.0 as int] > 0,
    ensures
        final(out)@ == old(out)@ + tagged_from(dom@, r, node_id, target_tag@),
    decreases r[node_id.0 as int],
{
    let ghost t = dom@;
    let matched = match dom.tag_name(node_id) {
        Some(tag) => crate::text::str_eq(tag, target_tag),
        None => false,
    };
    if matched {
        out.push(node_id);
    }
    let ghost start = out@;
    let children = dom.children(node_id);
    proof {
        assert(children@ == t[node_id.0 as int].children);
        assert(children@.take(0) =~= Seq::<NodeId>::empty());
    }
    let mut i: usize = 0;
    while i < children.len()
        invariant
            i <= children.len(),
            t == dom@,
            partly_ranked(t, r),
            node_id.0 < t.len(),
            r[node_id.0 as int] > 0,
            children@ == t[node_id.0 as int].children,
            out@ == start + tagged_in_list(t, r, children@.take(i as int), node_id, target_tag@),
        decreases children.len() - i,
    {
        let c = children[i];
        proof {
            assert(children@.take(i + 1).drop_last() =~= children@.take(i as int));
            assert(children@.take(i + 1).last() == c);
            assert(t[node_id.0 as int].children[i as int] == c);
        }
        if c.0 < dom.len() {
            walk_ranked(dom, c, target_tag, out, Ghost(r));
        }
        proof {
            assert(out@ =~= start + tagged_in_list(t, r, children@.take(i + 1), node_id, target_tag@));
        }
        i = i + 1;
    }
    proof {
        assert(children@.take(children@.len() as int) =~= children@);
        let own: Seq<NodeId> = if tag_of(t, node_id) == Some(target_tag@) { seq![node_id] } else { Seq::empty() };
        assert(start =~= old(out)@ + own);
        assert(out@ =~= old(out)@ + tagged_from(t, r, node_id, target_tag@));
    }
}

/// The `<script>` elements of a page, in document order.
pub fn find_script_nodes(dom: &DomTree) -> (r: Vec<NodeId>)
    requires
        is_forest(dom@) || dom@.len() == 0 || forest_at(dom@, NodeId(0)),
    ensures
        r@ == tagged_under(dom@, NodeId(0), "script"@),
{
    let mut result: Vec<NodeId> = Vec::new();
    walk_for_tag(dom, dom.root(), "script", &mut result);
    proof {
        assert(result@ =~= Seq::<NodeId>::empty() + tagged_under(dom@, NodeId(0), "script"@));
    }
    result
}

/// The text of each `<script>` element of a tree, in document order.
pub open spec fn script_sources(t: Seq<NodeView>) -> Seq<Seq<char>> {
    tagged_under(t, NodeId(0), "script"@).map_values(|id: NodeId| text_of(t, id))
}

/// The test "parses as JavaScript".
pub open spec fn js_parses() -> spec_fn(Seq<char>) -> bool {
    |s: Seq<char>| js_parse(s) is Ok
}

/// `v` holds, in order, the transpilation of each source of `srcs` that
/// parses; the others are left out.
pub open spec fn transpiled_all(v: Seq<TranspileResult>, srcs: Seq<Seq<char>>) -> bool {
    let ok = srcs.filter(js_parses());
    &&& v.len() == ok.len()
    &&& forall|k: int| 0 <= k < v.len() ==> #[trigger] result_of(v[k], default_strategies(), parsed_items(js_parse(ok[k])->Ok_0))
}

/// What loading a page finds: the size of its tree, its scripts, and the
/// scripts that transpiled.
pub struct PageScripts {
    pub node_count: usize,
    pub scripts_found: usize,
    pub results: Vec<TranspileResult>,
}

/// Whether `p` is what a page with tree `t` gives.
pub open spec fn page_scripts_of(p: PageScripts, t: Seq<NodeView>) -> bool {
    &&& p.node_count == t.len()
    &&& p.scripts_found == tagged_under(t, NodeId(0), "script"@).len()
    &&& transpiled_all(p.results@, script_sources(t))
}

/// The scripts of an HTML page: parse it, find its `<script>` elements, and
/// transpile the text of each, keeping those that transpile.
pub fn load_scripts(html: &str) -> (r: Result<PageScripts, ParseError>)
    ensures
        match html_nodes(html@) {
            Err(m) => r matches Err(ParseError::Parse(e)) && e@ == m,
            Ok(ns) => if ns.len() < usize::MAX - 1 {
                r matches Ok(p) && page_scripts_of(p, flat_run(ns).0)
            } else {
                r is Err
            },
        },
{
    let r0 = parse_html(html);
    let dom = match r0 {
        Ok(t) => t,
        Err(e) => return Err(e),
    };
    let ids = find_script_nodes(&dom);
    let ghost t = dom@;
    let ghost srcs = ids@.map_values(|id: NodeId| text_of(t, id));
    let mut results: Vec<TranspileResult> = Vec::new();
    proof {
        reveal(Seq::filter);
        assert(srcs.take(0) =~= Seq::<Seq<char>>::empty());
    }
    let mut i: usize = 0;
    while i < ids.len()
        invariant
            i <= ids.len(),
            t == dom@,
            is_forest(t),
            srcs == ids@.map_values(|id: NodeId| text_of(t, id)),
            transpiled_all(results@, srcs.take(i as int)),
        decreases ids.len() - i,
    {
        let text = dom.text_content(ids[i]);
        let ghost before = results@;
        let ghost ok0 = srcs.take(i as int).filter(js_parses());
        proof {
            reveal(Seq::filter);
            assert(srcs.take(i + 1).drop_last() =~= srcs.take(i as int));
            assert(srcs.take(i + 1).last() == text@);
        }
        match transpile(text.as_str()) {
            Ok(res) => {
                results.push(res);
                proof {
                    assert(srcs.take(i + 1).filter(js_parses()) == ok0.push(text@));
                    assert forall|k: int| 0 <= k < results@.len() implies #[trigger] result_of(
                        results@[k],
                        default_strategies(),
                        parsed_items(js_parse(srcs.take(i + 1).filter(js_parses())[k])->Ok_0),
                    ) by {
                        if k < before.len() {
                            assert(results@[k] == before[k]);
                            assert(srcs.take(i + 1).filter(js_parses())[k] == ok0[k]);
                        }
                    }
                }
            },
            Err(_) => {
                proof {
                    assert(srcs.take(i + 1).filter(js_parses()) == ok0);
                }
            },
        }
        i = i + 1;
    }
    proof {
        assert(srcs.take(ids@.len() as int) =~= srcs);
        assert(srcs =~= script_sources(t));
    }
    Ok(PageScripts { node_count: dom.len(), scripts_found: ids.len(), results })
}

} // verus!
