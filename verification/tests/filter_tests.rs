use browser_engine::search::filter::{inject_scope_filter, post_filter, Hit, Occur};
use browser_engine::search::journal::{JournalOp, NodeDoc, SearchJournal};
use browser_engine::search::partition::scope_hash;
use browser_engine::search::query::QueryPlan;
use browser_engine::search::scope::{CapSet, Scope};
use browser_engine::search::{BrowserSearch, SearchRequest};

const READ: u64 = 1 << 0;

fn scope(session: u64, cap_bits: u64) -> Scope {
    Scope::new(1, session, 1, CapSet::from_bits(cap_bits))
}

fn node(text: &str, scope: &Scope) -> NodeDoc {
    NodeDoc {
        tag: "p".to_string(),
        role: "paragraph".to_string(),
        text: text.to_string(),
        aria_label: String::new(),
        scope_hash: scope_hash(scope),
        node_kind: "/element".to_string(),
    }
}

#[test]
fn test_scope_filter_always_applied() {
    let scope = scope(1, READ);
    let plan = QueryPlan::parse("anything").expect("benign");
    let guarded = inject_scope_filter(plan, &scope);
    assert_eq!(guarded.guard, Occur::Must);
    assert_eq!(guarded.scope_hash, scope.digest());
}

#[test]
fn test_omitted_filter_denies() {
    let scope = scope(1, READ);
    let plan = QueryPlan::parse("x").expect("benign");
    let guarded = inject_scope_filter(plan, &scope);
    assert_eq!(guarded.guard, Occur::Must);
}

#[test]
fn partition_search_keeps_scopes_apart() {
    let mut bs = BrowserSearch::new();
    let a = scope(1, READ);
    let b = scope(2, READ);
    let mut journal = SearchJournal::new();
    journal.record(JournalOp::Add(node("hello world", &a)));
    journal.record(JournalOp::Add(node("hello there", &b)));
    let index = bs.partition_for(&a).expect("index up");
    journal.replay(&index).expect("replay");
    // Both scopes share one (tenant, page origin) partition.
    assert_eq!(bs.partition_count(), 1);

    let hits = bs.search(SearchRequest::new("hello", 10), &a).expect("index up");
    assert_eq!(hits.len(), 1);
    assert!(hits.iter().all(|c| c.provenance == a));
    assert_eq!(hits[0].node_id, 0);

    let hits_b = bs.search(SearchRequest::new("hello", 10), &b).expect("index up");
    assert_eq!(hits_b.len(), 1);
    assert_eq!(hits_b[0].node_id, 1);
    assert!(hits_b.iter().all(|c| c.provenance == b));
    assert_ne!(a, b);
}

#[test]
fn partition_search_and_composes_terms_and_caches() {
    let mut bs = BrowserSearch::new();
    let a = scope(1, READ);
    let mut journal = SearchJournal::new();
    journal.record(JournalOp::Add(node("hello world", &a)));
    journal.record(JournalOp::Add(node("hello there", &a)));
    let index = bs.partition_for(&a).expect("index up");
    journal.replay(&index).expect("replay");

    let both = bs.search(SearchRequest::new("hello", 10), &a).expect("index up");
    assert_eq!(both.len(), 2);
    let one = bs.search(SearchRequest::new("Hello World", 10), &a).expect("index up");
    assert_eq!(one.iter().map(|c| c.node_id).collect::<Vec<_>>(), vec![0]);
    let limited = bs.search(SearchRequest::new("there hello", 1), &a).expect("index up");
    assert_eq!(limited.len(), 1);
    // A journal entry and a receipt for each search.
    assert_eq!(bs.audit_trail(&a).len(), 6);
    // The same query again is served from the cache.
    let again = bs.search(SearchRequest::new("hello", 10), &a).expect("cached");
    assert_eq!(again.len(), 2);
    assert_eq!(bs.audit_trail(&a).len(), 8);
}

#[test]
fn partition_search_refuses_before_indexing() {
    let a = scope(1, READ);
    let mut bs = BrowserSearch::new();
    assert!(bs.search(SearchRequest::new("a&b", 10), &a).is_err());
    assert_eq!(bs.partition_count(), 0);
    assert!(bs.audit_trail(&a).is_empty());
}

#[test]
fn journal_delete_by_scope_removes_its_nodes() {
    let mut bs = BrowserSearch::new();
    let a = scope(1, READ);
    let mut journal = SearchJournal::new();
    journal.record(JournalOp::Add(node("hello world", &a)));
    journal.record(JournalOp::Delete(scope_hash(&a)));
    let index = bs.partition_for(&a).expect("index up");
    journal.replay(&index).expect("replay");
    let hits = bs.search(SearchRequest::new("hello", 10), &a).expect("index up");
    assert!(hits.is_empty());
}

#[test]
fn post_filter_keeps_every_hit() {
    let a = scope(1, READ);
    let hits = vec![Hit { doc_id: 3, scope_hash: scope_hash(&a) }, Hit { doc_id: 5, scope_hash: scope_hash(&a) }];
    assert_eq!(post_filter(hits.clone(), &a), hits);
}
