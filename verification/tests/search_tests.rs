use browser_engine::search::audit::{AuditLog, Outcome};
use browser_engine::search::cache::{CacheKey, ScopeCache};
use browser_engine::search::candidate::{Candidate, NodeKind, SanitizedExcerpt};
use browser_engine::search::error::FailClosed;
use browser_engine::search::fallback::deterministic_fallback;
use browser_engine::search::journal::{JournalOp, NodeDoc, SearchJournal};
use browser_engine::search::partition::{partition_key, scope_hash};
use browser_engine::search::query::{EmbeddingRef, Field, NormalizedTerm, QueryPlan};
use browser_engine::search::scope::{CapSet, Scope};
use browser_engine::search::{
    field_is_allowed_tree, normalize_term, plan_fingerprint, sanitize_parse, BrowserSearch, SearchRequest, SearchStep,
    MAX_QUERY_LEN,
};

const READ: u64 = 1 << 0;
const WRITE: u64 = 1 << 1;
const ACT: u64 = 1 << 2;

fn scope(session: u64, cap_bits: u64) -> Scope {
    Scope::new(1, session, 1, CapSet::from_bits(cap_bits))
}

fn candidate(node_id: u64, scope: &Scope) -> Candidate {
    Candidate {
        node_id,
        kind: NodeKind::ELEMENT,
        provenance: scope.clone(),
        excerpt: SanitizedExcerpt(format!("node-{node_id}")),
        evidence_refs: vec![node_id],
    }
}

#[test]
fn sanitize_parse_rejects_operators_and_oversized() {
    assert!(sanitize_parse("hello world").is_ok());
    assert!(sanitize_parse("").is_ok());
    assert!(sanitize_parse("a&b").is_err());
    assert!(sanitize_parse("a\"b").is_err());
    assert!(sanitize_parse(&"x".repeat(MAX_QUERY_LEN + 1)).is_err());
}

#[test]
fn fingerprint_is_deterministic() {
    let a = sanitize_parse("hello world").unwrap();
    let b = sanitize_parse("hello world").unwrap();
    let c = sanitize_parse("hello").unwrap();
    assert_eq!(plan_fingerprint(&a), plan_fingerprint(&b));
    assert_ne!(plan_fingerprint(&a), plan_fingerprint(&c));
}

#[test]
fn allowlist_accepts_text_denies_others() {
    let ok = QueryPlan::Term(Field::Text, NormalizedTerm::new("x").unwrap());
    assert!(field_is_allowed_tree(&ok));

    let bad = QueryPlan::Term(Field::Tag, NormalizedTerm::new("x").unwrap());
    assert!(!field_is_allowed_tree(&bad));

    let vec = QueryPlan::Vector(EmbeddingRef, 0);
    assert!(!field_is_allowed_tree(&vec));
}

#[test]
fn audit_records_query_then_results() {
    let mut log = AuditLog::new();
    let scope = Scope::new(2, 2, 2, Default::default());
    log.log_query(&scope, &QueryPlan::Empty, "why").unwrap();
    assert_eq!(log.len(), 1);
    log.log_results(&scope, &[]).unwrap();
    assert_eq!(log.len(), 2);
    let snap = log.snapshot(&scope);
    assert_eq!(snap.len(), 2);
}

#[test]
fn test_scope_cannot_be_fabricated() {
    let a = scope(1, READ);
    let b = scope(2, READ);
    assert_ne!(a, b, "distinct sessions must yield distinct scopes");
    assert_ne!(a.session(), b.session());
    assert_eq!(a.session(), 1);
    let _ = a.page_origin();
    let _ = a.tenant();
    let _ = a.capabilities();
}

#[test]
fn test_query_injection_rejected() {
    let bad = [
        "\0", "\u{1}", "\n", "\t", "a/b", "//", "a*b", "a?b", "(group)", "[set]", "{brace}", "\"q\"", "a'b",
        "a\\b", "a|b", "a&b", "!n", "^b", "~f", "a:b", "a<b", "a>b",
    ];
    for q in bad {
        assert!(matches!(QueryPlan::parse(q), Err(FailClosed::BadPlan)), "query injection not rejected: {q:?}");
    }
    let overlong = "x".repeat(5000);
    assert!(matches!(QueryPlan::parse(&overlong), Err(FailClosed::BadPlan)));
    assert!(QueryPlan::parse("hello world").is_ok());
    assert!(matches!(QueryPlan::parse("   "), Ok(QueryPlan::Empty)));
}

#[test]
fn test_query_injection_dollar_sign_gap() {
    assert!(matches!(QueryPlan::parse("price$"), Err(FailClosed::BadPlan)), "'$' should be rejected");
}

#[test]
fn test_score_not_exposed() {
    let scope = scope(1, READ);
    let c = candidate(7, &scope);
    let _node_id: u64 = c.node_id;
    let _kind: NodeKind = c.kind;
    let _prov: &Scope = &c.provenance;
    let _excerpt: &str = &c.excerpt;
    let _ev: &Vec<u64> = &c.evidence_refs;
}

#[test]
fn test_and_composition() {
    let node_needs = CapSet::from_bits(READ | WRITE);
    let only_read = CapSet::from_bits(READ);
    let only_write = CapSet::from_bits(WRITE);
    let both = CapSet::from_bits(READ | WRITE);

    assert!(!only_read.includes(node_needs), "missing Write must deny");
    assert!(!only_write.includes(node_needs), "missing Read must deny");
    assert!(both.includes(node_needs), "holding both must allow");

    let composed = only_read.intersection(both);
    assert!(!composed.includes(node_needs), "AND composition must not widen");
    assert!(!only_read.intersection(only_write).includes(node_needs), "read and write share nothing");
}

#[test]
fn test_idor_neutralized() {
    let scope_read = scope(1, READ);
    let scope_rw = scope(1, READ | WRITE);

    let needs_read = CapSet::from_bits(READ);
    let needs_write = CapSet::from_bits(WRITE);
    let needs_rw = CapSet::from_bits(READ | WRITE);

    assert!(scope_read.allows(needs_read));
    assert!(!scope_read.allows(needs_write), "write-gated object must deny read-only scope");
    assert!(!scope_read.allows(needs_rw));
    assert!(scope_rw.allows(needs_rw));
}

#[test]
fn test_regex_rejected() {
    let regexes = [".*", "[a-z]", "(a|b)", "\\d+", "^x$", "a*b+", "col(r|ur)"];
    for r in regexes {
        assert!(matches!(QueryPlan::parse(r), Err(FailClosed::BadPlan)), "user regex not rejected: {r:?}");
    }
}

#[test]
fn test_multi_capability_or_widening_prevented() {
    let s1 = CapSet::from_bits(READ | ACT);
    let s2 = CapSet::from_bits(WRITE | ACT);
    let inter = s1.intersection(s2);

    assert!(!inter.contains(0), "Read not in s2");
    assert!(!inter.contains(1), "Write not in s1");
    assert!(inter.contains(2), "Act in both");
    assert!(!inter.includes(s1));
    assert!(!inter.includes(s2));
    let rw = CapSet::from_bits(READ | WRITE);
    assert!(!inter.includes(rw), "OR-widening must be prevented");
}

#[test]
fn test_llm_output_not_raw_query() {
    let injections = ["query OR *", "<script>alert(1)</script>", "a:b:c", "(select all)", "term & everything", "x\\y"];
    for inj in injections {
        assert!(matches!(QueryPlan::parse(inj), Err(FailClosed::BadPlan)), "LLM injection not sanitized: {inj:?}");
    }
    assert!(QueryPlan::parse("submit button").is_ok());
}

fn terms_of(p: &QueryPlan, out: &mut Vec<String>) {
    match p {
        QueryPlan::Term(f, t) => {
            assert_eq!(*f, Field::Text);
            out.push(t.as_str().to_string());
        }
        QueryPlan::And(a, b) => {
            terms_of(a, out);
            terms_of(b, out);
        }
        other => panic!("unexpected plan {other:?}"),
    }
}

#[test]
fn parse_lowercases_and_chains_left_to_right() {
    let p = QueryPlan::parse("  Submit  BUTTON now ").unwrap();
    match &p {
        QueryPlan::And(left, right) => {
            assert!(matches!(**left, QueryPlan::And(_, _)));
            assert!(matches!(**right, QueryPlan::Term(Field::Text, _)));
        }
        other => panic!("unexpected plan {other:?}"),
    }
    let mut terms = Vec::new();
    terms_of(&p, &mut terms);
    assert_eq!(terms, vec!["submit", "button", "now"]);
    assert_eq!(plan_fingerprint(&QueryPlan::parse("one").unwrap()), b"T;textone\0".to_vec());
    assert_eq!(plan_fingerprint(&QueryPlan::Empty), b"EMPTY".to_vec());
}

#[test]
fn parse_limits() {
    assert!(QueryPlan::parse(&"x".repeat(1024)).is_ok());
    assert!(QueryPlan::parse(&"x".repeat(1025)).is_err());
    assert!(sanitize_parse(&"x ".repeat(64)).is_ok());
    assert!(matches!(sanitize_parse(&"x ".repeat(65)), Err(FailClosed::BadPlan)));
    assert!(matches!(normalize_term(&"y".repeat(129)), Err(FailClosed::BadPlan)));
    assert_eq!(normalize_term("MiXeD").unwrap().as_str(), "mixed");
    assert!(matches!(NormalizedTerm::new(""), Err(FailClosed::BadPlan)));
    assert!(matches!(NormalizedTerm::new("a.b"), Err(FailClosed::BadPlan)));
    assert!(matches!(sanitize_parse("\n"), Ok(QueryPlan::Empty)));
    assert!(matches!(QueryPlan::parse("\n"), Err(FailClosed::BadPlan)));
}

#[test]
fn scope_digest_and_partition_key() {
    let a = Scope::new(1, 2, 3, CapSet::from_bits(4));
    let b = Scope::new(1, 9, 3, CapSet::from_bits(0));
    assert_eq!(scope_hash(&a), a.digest());
    assert_eq!(a.digest(), a.clone().digest());
    assert_ne!(a.digest(), b.digest());
    assert_eq!(partition_key(&a), partition_key(&b));
    assert_ne!(partition_key(&a), partition_key(&Scope::new(2, 2, 3, CapSet::from_bits(4))));
}

#[test]
fn cache_checks_scope_on_read() {
    let a = scope(1, READ);
    let b = scope(2, READ);
    let key = CacheKey::derive(&a, b"plan");
    assert_ne!(key, CacheKey::derive(&b, b"plan"));
    assert_ne!(key, CacheKey::derive(&a, b"other"));
    let mut cache = ScopeCache::new();
    cache.insert(key, &a, vec![candidate(1, &a)]);
    assert_eq!(cache.len(), 1);
    assert_eq!(cache.get(&key, &a).unwrap()[0].node_id, 1);
    assert!(cache.get(&key, &b).is_none());
    cache.insert(key, &a, vec![candidate(2, &a), candidate(3, &a)]);
    assert_eq!(cache.len(), 1);
    assert_eq!(cache.get(&key, &a).unwrap().len(), 2);
    cache.invalidate(&key);
    assert!(cache.is_empty());
    assert!(cache.get(&key, &a).is_none());
}

#[test]
fn search_journals_before_it_runs_and_stamps_scope() {
    let mut bs = BrowserSearch::new();
    let a = scope(1, READ);
    let b = scope(2, READ);
    let req = SearchRequest::new("Hello World", 10).with_reason("test");
    let (plan, key, limit) = match bs.begin_search(&req, &a) {
        SearchStep::Execute { plan, key, limit } => (plan, key, limit),
        SearchStep::Done(r) => panic!("unexpected early answer {r:?}"),
    };
    assert_eq!(limit, 10);
    let trail = bs.audit_trail(&a);
    assert_eq!(trail.len(), 1);
    assert_eq!(trail[0].outcome, Outcome::Submitted);
    assert_eq!(trail[0].reason, "test");
    assert!(bs.audit_trail(&b).is_empty());

    let result = bs.finish_search(&a, key, &plan, Ok(vec![4, 2])).unwrap();
    assert_eq!(result.iter().map(|c| c.node_id).collect::<Vec<_>>(), vec![4, 2]);
    assert!(result.iter().all(|c| c.provenance == a && c.kind == NodeKind::ELEMENT));
    let trail = bs.audit_trail(&a);
    assert_eq!(trail.len(), 2);
    assert_eq!(trail[1].outcome, Outcome::Success);
    assert_eq!(trail[1].candidates, vec![4, 2]);

    // The same query again is served from the cache, with a receipt.
    match bs.begin_search(&req, &a) {
        SearchStep::Done(Ok(v)) => assert_eq!(v.iter().map(|c| c.node_id).collect::<Vec<_>>(), vec![4, 2]),
        _ => panic!("expected a cached answer"),
    }
    assert_eq!(bs.audit_trail(&a).len(), 4);

    // Another scope never sees it.
    assert!(matches!(bs.begin_search(&req, &b), SearchStep::Execute { .. }));
}

#[test]
fn search_denials_and_fallback() {
    let mut bs = BrowserSearch::default();
    let a = scope(1, READ);
    match bs.begin_search(&SearchRequest::new("a&b", 5), &a) {
        SearchStep::Done(Err(FailClosed::BadPlan)) => {}
        _ => panic!("operator query must be denied"),
    }
    assert!(bs.audit_trail(&a).is_empty());
    let (plan, key) = match bs.begin_search(&SearchRequest::new("x", 5), &a) {
        SearchStep::Execute { plan, key, .. } => (plan, key),
        _ => panic!("expected execution"),
    };
    let r = bs.finish_search(&a, key, &plan, Err(FailClosed::IndexDown)).unwrap();
    assert!(r.is_empty());
    let trail = bs.audit_trail(&a);
    assert_eq!(trail.iter().map(|e| e.outcome).collect::<Vec<_>>(), vec![Outcome::Submitted, Outcome::Fallback]);
    assert!(deterministic_fallback(&plan, &a).unwrap().is_empty());
    assert_eq!(FailClosed::Unauthorized.message(), "scope lacks capability");
}

#[test]
fn fingerprints_of_distinct_plans_differ() {
    let queries = ["a", "a b", "ab", "a,b c", "a b,c", "b a", ""];
    let prints: Vec<Vec<u8>> = queries.iter().map(|q| plan_fingerprint(&sanitize_parse(q).unwrap())).collect();
    for i in 0..prints.len() {
        for j in 0..prints.len() {
            assert_eq!(i == j, prints[i] == prints[j], "{:?} vs {:?}", queries[i], queries[j]);
        }
    }
}

#[test]
fn journal_stamps_in_order() {
    let mut j = SearchJournal::new();
    assert!(j.is_empty());
    assert_eq!(j.next_opstamp(), 0);
    let doc = NodeDoc {
        tag: "button".to_string(),
        role: "button".to_string(),
        text: "ok".to_string(),
        aria_label: String::new(),
        scope_hash: 7,
        node_kind: "/element".to_string(),
    };
    assert_eq!(j.record(JournalOp::Add(doc)), 0);
    assert_eq!(j.record(JournalOp::Delete(7)), 1);
    assert_eq!(j.len(), 2);
    assert_eq!(j.next_opstamp(), 2);
    assert!(matches!(j.entries()[1], (1, JournalOp::Delete(7))));
}
