//! Scoped, capability-gated retrieval over the semantic graph.
//!
//! Every layer fails closed, and layers compose by intersection (the most
//! restrictive wins), never by union. A search is sanitized into an eval-free
//! plan, authorized against a field allowlist, journaled before it runs, and
//! answered only with candidates stamped with the caller's scope.
pub mod audit;
pub mod cache;
pub mod candidate;
pub mod error;
pub mod fallback;
pub mod filter;
pub mod index;
pub mod journal;
pub mod partition;
pub mod query;
pub mod scope;

use vstd::prelude::*;
use crate::digest::{extend_bytes, le_bytes, u64_le_bytes};
use crate::search::audit::{appended, entries_view, node_ids, of_scope, AuditEntry, AuditEntryView, AuditLog, Outcome};
use crate::search::cache::{CacheKey, CachedView, ScopeCache};
use crate::search::candidate::{candidates_view, copy_candidates, element_candidate, element_for, Candidate, CandidateView};
use crate::search::error::FailClosed;
use crate::search::fallback::deterministic_fallback;
use crate::search::filter::{build_scoped_query, phrases_ok, scoped_query};
use crate::search::index::{ran_in, PartitionStore, QueryDesc, SearchIndex};
use std::sync::Arc;
use crate::search::partition::partition_of;
use crate::search::query::{and_chain, any_forbidden, byte_len, has_forbidden, push_term, term_res_view, term_result,
    Field, NormalizedTerm, PlanView, QueryPlan};
use crate::search::scope::Scope;
use crate::text::{lowercase, split_whitespace, str_from, strings_view, to_lowercase, trim, trim_str, words};

verus! {

/// The longest query, in bytes, a search accepts.
pub const MAX_QUERY_LEN: usize = 4096;
/// The longest term, in bytes.
pub const MAX_TERM_LEN: usize = 128;
/// The most terms a query may hold.
pub const MAX_TERMS: usize = 64;

/// What `normalize_term` gives for a raw token: refused when empty, longer
/// than `MAX_TERM_LEN` bytes, holding a forbidden character, or lowercasing
/// to nothing; else the term built from its trimmed lowercase form.
pub open spec fn normalize_result(raw: Seq<char>) -> Result<Seq<char>, FailClosed> {
    if raw.len() == 0 || byte_len(raw) > MAX_TERM_LEN {
        Err(FailClosed::BadPlan)
    } else if has_forbidden(raw) {
        Err(FailClosed::BadPlan)
    } else if lowercase(trim(raw)).len() == 0 {
        Err(FailClosed::BadPlan)
    } else {
        term_result(lowercase(trim(raw)))
    }
}

/// Normalizing tokens in order: the first refusal, or all the terms.
pub open spec fn normalize_all(ws: Seq<Seq<char>>) -> Result<Seq<Seq<char>>, FailClosed>
    decreases ws.len(),
{
    if ws.len() == 0 {
        Ok(Seq::empty())
    } else {
        match normalize_all(ws.drop_last()) {
            Err(e) => Err(e),
            Ok(ts) => match normalize_result(ws.last()) {
                Ok(t) => Ok(ts.push(t)),
                Err(e) => Err(e),
            },
        }
    }
}

/// Once a prefix of the tokens is refused, every longer prefix is refused
/// with the same error.
proof fn lemma_normalize_all_err(ws: Seq<Seq<char>>, i: int, j: int)
    requires
        0 <= i <= j <= ws.len(),
        normalize_all(ws.take(i)) is Err,
    ensures
        normalize_all(ws.take(j)) == normalize_all(ws.take(i)),
    decreases j - i,
{
    if j > i {
        lemma_normalize_all_err(ws, i, j - 1);
        assert(ws.take(j).drop_last() =~= ws.take(j - 1));
    }
}

/// What `sanitize_parse` gives for a raw query.
pub open spec fn sanitize_result(raw: Seq<char>) -> Result<PlanView, FailClosed> {
    if byte_len(raw) > MAX_QUERY_LEN {
        Err(FailClosed::BadPlan)
    } else if trim(raw).len() == 0 {
        Ok(PlanView::Empty)
    } else if has_forbidden(trim(raw)) {
        Err(FailClosed::BadPlan)
    } else if words(trim(raw)).len() > MAX_TERMS {
        Err(FailClosed::BadPlan)
    } else {
        match normalize_all(words(trim(raw))) {
            Ok(ts) => Ok(and_chain(ts)),
            Err(e) => Err(e),
        }
    }
}

/// The content of the result of parsing.
pub open spec fn plan_result_view(r: Result<QueryPlan, FailClosed>) -> Result<PlanView, FailClosed> {
    match r {
        Ok(p) => Ok(p@),
        Err(e) => Err(e),
    }
}

/// Normalize one token into a term.
pub fn normalize_term(raw: &str) -> (r: Result<NormalizedTerm, FailClosed>)
    ensures
        term_res_view(r) == normalize_result(raw@),
{
    if raw.is_empty() || raw.len() > MAX_TERM_LEN {
        return Err(FailClosed::BadPlan);
    }
    if any_forbidden(raw) {
        return Err(FailClosed::BadPlan);
    }
    let trimmed = trim_str(raw);
    let normalized = to_lowercase(trimmed.as_str());
    if normalized.as_str().is_empty() {
        return Err(FailClosed::BadPlan);
    }
    NormalizedTerm::new(normalized.as_str())
}

/// Sanitize a raw query into an eval-free plan: text terms joined by AND.
pub fn sanitize_parse(raw: &str) -> (r: Result<QueryPlan, FailClosed>)
    ensures
        plan_result_view(r) == sanitize_result(raw@),
{
    if raw.len() > MAX_QUERY_LEN {
        return Err(FailClosed::BadPlan);
    }
    let trimmed = trim_str(raw);
    if trimmed.as_str().is_empty() {
        let e = QueryPlan::Empty;
        assert(e@ == PlanView::Empty);
        return Ok(e);
    }
    if any_forbidden(trimmed.as_str()) {
        return Err(FailClosed::BadPlan);
    }
    let tokens = split_whitespace(trimmed.as_str());
    if tokens.len() > MAX_TERMS {
        return Err(FailClosed::BadPlan);
    }
    let ghost ws = words(trimmed@);
    let mut plan = QueryPlan::Empty;
    let mut i: usize = 0;
    while i < tokens.len()
        invariant
            i <= tokens.len(),
            strings_view(tokens@) == ws,
            ws == words(trim(raw@)),
            byte_len(raw@) <= MAX_QUERY_LEN,
            trim(raw@).len() > 0,
            !has_forbidden(trim(raw@)),
            ws.len() <= MAX_TERMS,
            normalize_all(ws.take(i as int)) matches Ok(ts) && plan@ == and_chain(ts),
        decreases tokens.len() - i,
    {
        let ghost ts = normalize_all(ws.take(i as int))->Ok_0;
        proof {
            assert(ws.take(i + 1).drop_last() =~= ws.take(i as int));
            assert(ws.take(i + 1).last() == tokens@[i as int]@);
        }
        let term = match normalize_term(tokens[i].as_str()) {
            Ok(t) => t,
            Err(e) => {
                proof {
                    lemma_normalize_all_err(ws, i + 1, ws.len() as int);
                    assert(ws.take(ws.len() as int) =~= ws);
                }
                return Err(e);
            },
        };
        proof {
            if ts.len() > 0 {
                assert(and_chain(ts) !is Empty);
            }
            assert(ts.push(term.0@).drop_last() =~= ts);
        }
        plan = push_term(plan, term);
        i = i + 1;
    }
    proof {
        assert(ws.take(tokens@.len() as int) =~= ws);
    }
    Ok(plan)
}

/// Whether a character is forbidden in a query.
pub fn is_forbidden_char(c: char) -> (r: bool)
    ensures
        r == crate::search::query::forbidden_char(c),
{
    crate::search::query::is_forbidden(c)
}

/// Whether every leaf of a plan addresses the text field; vector queries
/// are never allowed.
pub open spec fn allowed_tree(p: PlanView) -> bool
    decreases p,
{
    match p {
        PlanView::Term(f, _) => f == Field::Text,
        PlanView::Phrase(f, _) => f == Field::Text,
        PlanView::And(a, b) => allowed_tree(*a) && allowed_tree(*b),
        PlanView::Or(a, b) => allowed_tree(*a) && allowed_tree(*b),
        PlanView::Vector(_) => false,
        PlanView::Empty => true,
    }
}

/// Field allowlist: only text-field leaves.
pub fn field_is_allowed_tree(plan: &QueryPlan) -> (r: bool)
    ensures
        r == allowed_tree(plan@),
    decreases plan,
{
    match plan {
        QueryPlan::Term(f, _) => *f == Field::Text,
        QueryPlan::Phrase(f, _) => *f == Field::Text,
        QueryPlan::And(a, b) => field_is_allowed_tree(a) && field_is_allowed_tree(b),
        QueryPlan::Or(a, b) => field_is_allowed_tree(a) && field_is_allowed_tree(b),
        QueryPlan::Vector(_, _) => false,
        QueryPlan::Empty => true,
    }
}

/// The UTF-8 bytes of a text.
pub open spec fn utf8_bytes(s: Seq<char>) -> Seq<u8> {
    vstd::utf8::encode_utf8(s)
}

/// The tag a field is written with in a fingerprint.
pub open spec fn tag_text(f: Field) -> Seq<char> {
    match f {
        Field::Tag => "tag"@,
        Field::Role => "role"@,
        Field::Text => "text"@,
        Field::AriaLabel => "aria"@,
    }
}

/// The terms of a phrase, each followed by a space.
pub open spec fn phrase_bytes(ts: Seq<Seq<char>>) -> Seq<u8>
    decreases ts.len(),
{
    if ts.len() == 0 {
        Seq::empty()
    } else {
        phrase_bytes(ts.drop_last()) + utf8_bytes(ts.last()) + seq![32u8]
    }
}

/// The canonical bytes of a plan, from which cache keys are derived.
pub open spec fn fingerprint(p: PlanView) -> Seq<u8>
    decreases p,
{
    match p {
        PlanView::Term(f, t) => utf8_bytes("T;"@) + utf8_bytes(tag_text(f)) + utf8_bytes(t) + seq![0u8],
        PlanView::Phrase(f, ts) => utf8_bytes("P;"@) + utf8_bytes(tag_text(f)) + phrase_bytes(ts) + seq![0u8],
        PlanView::Vector(sf) => utf8_bytes("V;"@) + le_bytes(sf),
        PlanView::And(a, b) => utf8_bytes("AND("@) + fingerprint(*a) + seq![44u8] + fingerprint(*b) + seq![41u8],
        PlanView::Or(a, b) => utf8_bytes("OR("@) + fingerprint(*a) + seq![44u8] + fingerprint(*b) + seq![41u8],
        PlanView::Empty => utf8_bytes("EMPTY"@),
    }
}

/// The tag a field is written with.
fn field_tag(f: &Field) -> (r: &'static str)
    ensures
        r@ == tag_text(*f),
{
    match f {
        Field::Tag => "tag",
        Field::Role => "role",
        Field::Text => "text",
        Field::AriaLabel => "aria",
    }
}

/// Appends the fingerprint of `plan` to `out`.
pub fn walk(plan: &QueryPlan, out: &mut Vec<u8>)
    ensures
        final(out)@ == old(out)@ + fingerprint(plan@),
    decreases plan,
{
    match plan {
        QueryPlan::Term(f, t) => {
            extend_bytes(out, "T;".as_bytes());
            extend_bytes(out, field_tag(f).as_bytes());
            extend_bytes(out, t.as_str().as_bytes());
            out.push(0);
            proof {
                assert(out@ =~= old(out)@ + fingerprint(plan@));
            }
        },
        QueryPlan::Phrase(f, terms) => {
            extend_bytes(out, "P;".as_bytes());
            extend_bytes(out, field_tag(f).as_bytes());
            let ghost start = out@;
            let ghost tv = crate::search::query::terms_view(terms@);
            let mut i: usize = 0;
            while i < terms.len()
                invariant
                    i <= terms.len(),
                    tv == crate::search::query::terms_view(terms@),
                    out@ == start + phrase_bytes(tv.take(i as int)),
                decreases terms.len() - i,
            {
                extend_bytes(out, terms[i].as_str().as_bytes());
                out.push(32);
                proof {
                    assert(tv.take(i + 1).drop_last() =~= tv.take(i as int));
                    assert(out@ =~= start + phrase_bytes(tv.take(i + 1)));
                }
                i = i + 1;
            }
            out.push(0);
            proof {
                assert(tv.take(terms@.len() as int) =~= tv);
                assert(out@ =~= old(out)@ + fingerprint(plan@));
            }
        },
        QueryPlan::Vector(_, sf) => {
            extend_bytes(out, "V;".as_bytes());
            let b = u64_le_bytes(*sf);
            extend_bytes(out, b.as_slice());
            proof {
                assert(out@ =~= old(out)@ + fingerprint(plan@));
            }
        },
        QueryPlan::And(a, b) => {
            extend_bytes(out, "AND(".as_bytes());
            walk(a, out);
            out.push(44);
            walk(b, out);
            out.push(41);
            proof {
                assert(out@ =~= old(out)@ + fingerprint(plan@));
            }
        },
        QueryPlan::Or(a, b) => {
            extend_bytes(out, "OR(".as_bytes());
            walk(a, out);
            out.push(44);
            walk(b, out);
            out.push(41);
            proof {
                assert(out@ =~= old(out)@ + fingerprint(plan@));
            }
        },
        QueryPlan::Empty => {
            extend_bytes(out, "EMPTY".as_bytes());
        },
    }
}

/// The canonical fingerprint of a plan.
pub fn plan_fingerprint(plan: &QueryPlan) -> (r: Vec<u8>)
    ensures
        r@ == fingerprint(plan@),
{
    let mut out: Vec<u8> = Vec::new();
    walk(plan, &mut out);
    proof {
        assert(out@ =~= fingerprint(plan@));
    }
    out
}


/// What `begin_search` does once the plan is sanitized and allowed: the
/// trail gets the `Submitted` record of the plan; then either the cache holds
/// a result under the plan's key for this very scope, which is returned with
/// a `Success` receipt, or the plan is handed back to execute.
pub open spec fn journaled_then(
    before: Seq<AuditEntryView>,
    after: Seq<AuditEntryView>,
    cached: Map<Seq<u8>, CachedView>,
    r: SearchStep,
    scope: Scope,
    p: PlanView,
    reason: Seq<char>,
    limit: usize,
) -> bool {
    let k = key_of(scope, p);
    let n = before.len();
    &&& after.len() > n
    &&& after.take(n as int) == before
    &&& crate::search::audit::entry_is(after[n as int], scope, p, reason, Seq::empty(), Outcome::Submitted)
    &&& if cached.contains_key(k) && cached[k].scope == scope {
        &&& r matches SearchStep::Done(Ok(v)) && candidates_view(v@) == cached[k].results
        &&& after.len() == n + 2
        &&& crate::search::audit::entry_is(after[n + 1int], scope, PlanView::Empty, Seq::empty(),
            view_ids(cached[k].results), Outcome::Success)
    } else {
        &&& r matches SearchStep::Execute { plan, key, limit: l } && plan@ == p && key.0@ == k && l == limit
        &&& after.len() == n + 1
    }
}


/// Text terms joined by AND only address the text field.
proof fn lemma_chain_allowed(ts: Seq<Seq<char>>)
    ensures
        allowed_tree(and_chain(ts)),
    decreases ts.len(),
{
    if ts.len() > 1 {
        lemma_chain_allowed(ts.drop_last());
        let leaf = PlanView::Term(Field::Text, ts.last());
        assert(allowed_tree(leaf));
        assert(and_chain(ts) == PlanView::And(Box::new(and_chain(ts.drop_last())), Box::new(leaf)));
    } else if ts.len() == 1 {
        assert(and_chain(ts) == PlanView::Term(Field::Text, ts[0]));
    }
}

/// Every plan the sanitizer produces passes the field allowlist: a user
/// query can only ever address the text field.
pub proof fn law_sanitized_plans_are_allowed(raw: Seq<char>)
    ensures
        sanitize_result(raw) matches Ok(p) ==> allowed_tree(p),
        crate::search::query::parse_result(raw) matches Ok(p) ==> allowed_tree(p),
{
    if let Ok(ts) = normalize_all(words(trim(raw))) {
        lemma_chain_allowed(ts);
    }
    lemma_chain_allowed(crate::search::query::lowercased(words(trim(raw))));
}


/// Every plan the sanitizer or `QueryPlan::parse` produces can be run with
/// the scope guard: it holds no phrase of fewer than two terms, which is
/// what `inject_scope_filter` requires.
pub proof fn law_parsed_plans_can_be_guarded(raw: Seq<char>)
    ensures
        sanitize_result(raw) matches Ok(p) ==> phrases_ok(p),
        crate::search::query::parse_result(raw) matches Ok(p) ==> phrases_ok(p),
{
    if let Ok(ts) = normalize_all(words(trim(raw))) {
        lemma_chain_phrases_ok(ts);
    }
    lemma_chain_phrases_ok(crate::search::query::lowercased(words(trim(raw))));
}

/// Whether a term holds no NUL character.
pub open spec fn nul_free(t: Seq<char>) -> bool {
    forall|i: int| 0 <= i < t.len() ==> #[trigger] t[i] != '\0'
}

/// The UTF-8 encoding of a character other than NUL has no zero byte.
proof fn lemma_scalar_nonzero(c: char)
    requires
        c != '\0',
    ensures
        forall|j: int| 0 <= j < vstd::utf8::encode_scalar(c as u32).len() ==> #[trigger] vstd::utf8::encode_scalar(
            c as u32,
        )[j] != 0u8,
{
    let v = c as u32;
    assert(v != 0);
    assert(v <= 0x7F && v != 0 ==> (v & 0x7F) as u8 != 0u8) by (bit_vector);
    assert(0xC0u8 | ((v >> 6) & 0x1F) as u8 != 0u8) by (bit_vector);
    assert(0xE0u8 | ((v >> 12) & 0x0F) as u8 != 0u8) by (bit_vector);
    assert(0xF0u8 | ((v >> 18) & 0x7) as u8 != 0u8) by (bit_vector);
    assert(0x80u8 | (v & 0x3F) as u8 != 0u8) by (bit_vector);
    assert(0x80u8 | ((v >> 6) & 0x3F) as u8 != 0u8) by (bit_vector);
    assert(0x80u8 | ((v >> 12) & 0x3F) as u8 != 0u8) by (bit_vector);
}

/// The UTF-8 encoding of a NUL-free text has no zero byte.
proof fn lemma_utf8_nonzero(t: Seq<char>)
    requires
        nul_free(t),
    ensures
        forall|j: int| 0 <= j < utf8_bytes(t).len() ==> #[trigger] utf8_bytes(t)[j] != 0u8,
    decreases t.len(),
{
    if t.len() > 0 {
        let rest = t.drop_first();
        assert forall|i: int| 0 <= i < rest.len() implies #[trigger] rest[i] != '\0' by {
            assert(rest[i] == t[i + 1]);
        }
        lemma_utf8_nonzero(rest);
        lemma_scalar_nonzero(t[0]);
        let h = vstd::utf8::encode_scalar(t[0] as u32);
        assert forall|j: int| 0 <= j < utf8_bytes(t).len() implies #[trigger] utf8_bytes(t)[j] != 0u8 by {
            if j < h.len() {
                assert(utf8_bytes(t)[j] == h[j]);
            } else {
                assert(utf8_bytes(t)[j] == utf8_bytes(rest)[j - h.len()]);
            }
        }
    }
}

/// Texts with the same UTF-8 encoding are the same.
proof fn lemma_utf8_injective(a: Seq<char>, b: Seq<char>)
    requires
        utf8_bytes(a) == utf8_bytes(b),
    ensures
        a == b,
{
    vstd::utf8::encode_utf8_decode_utf8(a);
    vstd::utf8::encode_utf8_decode_utf8(b);
}

/// The bytes of an ASCII literal are its characters.
proof fn lemma_ascii_bytes(s: Seq<char>, b: Seq<u8>)
    requires
        s.len() == b.len(),
        forall|i: int| 0 <= i < s.len() ==> '\0' <= #[trigger] s[i] <= '\u{7f}' && s[i] as u8 == b[i],
    ensures
        utf8_bytes(s) == b,
{
    vstd::utf8::is_ascii_chars_encode_utf8(s);
    assert(utf8_bytes(s) =~= b);
}

/// The bytes of the literals a chain's fingerprint is made of.
proof fn lemma_literal_bytes()
    ensures
        utf8_bytes("T;"@) == seq![84u8, 59u8],
        utf8_bytes("text"@) == seq![116u8, 101u8, 120u8, 116u8],
        utf8_bytes("AND("@) == seq![65u8, 78u8, 68u8, 40u8],
        utf8_bytes("EMPTY"@) == seq![69u8, 77u8, 80u8, 84u8, 89u8],
{
    reveal_strlit("T;");
    reveal_strlit("text");
    reveal_strlit("AND(");
    reveal_strlit("EMPTY");
    lemma_ascii_bytes("T;"@, seq![84u8, 59u8]);
    lemma_ascii_bytes("text"@, seq![116u8, 101u8, 120u8, 116u8]);
    lemma_ascii_bytes("AND("@, seq![65u8, 78u8, 68u8, 40u8]);
    lemma_ascii_bytes("EMPTY"@, seq![69u8, 77u8, 80u8, 84u8, 89u8]);
}

/// Whether every term of a list is NUL-free.
pub open spec fn all_nul_free(ts: Seq<Seq<char>>) -> bool {
    forall|i: int| 0 <= i < ts.len() ==> nul_free(#[trigger] ts[i])
}

/// The fingerprint of a text term.
spec fn leaf_bytes(t: Seq<char>) -> Seq<u8> {
    seq![84u8, 59u8] + seq![116u8, 101u8, 120u8, 116u8] + utf8_bytes(t) + seq![0u8]
}

/// A chain's fingerprint: a single term, or `AND(` the shorter chain, a
/// comma, the last term and `)`.
proof fn lemma_chain_bytes(ts: Seq<Seq<char>>)
    requires
        ts.len() > 0,
    ensures
        ts.len() == 1 ==> fingerprint(and_chain(ts)) == leaf_bytes(ts[0]),
        ts.len() > 1 ==> fingerprint(and_chain(ts)) == seq![65u8, 78u8, 68u8, 40u8] + fingerprint(and_chain(ts.drop_last()))
            + seq![44u8] + leaf_bytes(ts.last()) + seq![41u8],
{
    lemma_literal_bytes();
    reveal_strlit("text");
    if ts.len() == 1 {
        assert(and_chain(ts) == PlanView::Term(Field::Text, ts[0]));
    } else {
        let leaf = PlanView::Term(Field::Text, ts.last());
        assert(fingerprint(leaf) == leaf_bytes(ts.last()));
        assert(and_chain(ts) == PlanView::And(Box::new(and_chain(ts.drop_last())), Box::new(leaf)));
    }
}

/// Two leaf fingerprints followed by anything agree only where the terms
/// and what follows agree.
proof fn lemma_leaf_parse(t1: Seq<char>, t2: Seq<char>, s1: Seq<u8>, s2: Seq<u8>)
    requires
        nul_free(t1),
        nul_free(t2),
        leaf_bytes(t1) + s1 == leaf_bytes(t2) + s2,
    ensures
        t1 == t2,
        s1 == s2,
{
    lemma_utf8_nonzero(t1);
    lemma_utf8_nonzero(t2);
    let u1 = utf8_bytes(t1);
    let u2 = utf8_bytes(t2);
    let w = leaf_bytes(t1) + s1;
    assert(w == leaf_bytes(t2) + s2);
    if u1.len() < u2.len() {
        assert(w[6 + u1.len() as int] == 0u8);
        assert((leaf_bytes(t2) + s2)[6 + u1.len() as int] == u2[u1.len() as int]);
        assert(false);
    }
    if u2.len() < u1.len() {
        assert((leaf_bytes(t2) + s2)[6 + u2.len() as int] == 0u8);
        assert(w[6 + u2.len() as int] == u1[u2.len() as int]);
        assert(false);
    }
    assert(u1 =~= w.subrange(6, 6 + u1.len() as int));
    assert(u2 =~= (leaf_bytes(t2) + s2).subrange(6, 6 + u2.len() as int));
    lemma_utf8_injective(t1, t2);
    assert(s1 =~= w.skip(7 + u1.len() as int));
    assert(s2 =~= (leaf_bytes(t2) + s2).skip(7 + u2.len() as int));
}

/// Chain fingerprints are self-delimiting: followed by anything, they agree
/// only where the chains and what follows agree.
proof fn lemma_chain_parse(c1: Seq<Seq<char>>, c2: Seq<Seq<char>>, s1: Seq<u8>, s2: Seq<u8>)
    requires
        c1.len() > 0,
        c2.len() > 0,
        all_nul_free(c1),
        all_nul_free(c2),
        fingerprint(and_chain(c1)) + s1 == fingerprint(and_chain(c2)) + s2,
    ensures
        c1 == c2,
        s1 == s2,
    decreases c1.len() + c2.len(),
{
    lemma_chain_bytes(c1);
    lemma_chain_bytes(c2);
    let w = fingerprint(and_chain(c1)) + s1;
    assert(nul_free(c1[0]) && nul_free(c2[0]));
    if c1.len() == 1 && c2.len() == 1 {
        lemma_leaf_parse(c1[0], c2[0], s1, s2);
        assert(c1 =~= c2);
    } else if c1.len() == 1 {
        assert(w[0] == 84u8);
        assert((fingerprint(and_chain(c2)) + s2)[0] == 65u8);
    } else if c2.len() == 1 {
        assert(w[0] == 65u8);
        assert((fingerprint(and_chain(c2)) + s2)[0] == 84u8);
    } else {
        let p1 = c1.drop_last();
        let p2 = c2.drop_last();
        let r1 = seq![44u8] + leaf_bytes(c1.last()) + seq![41u8] + s1;
        let r2 = seq![44u8] + leaf_bytes(c2.last()) + seq![41u8] + s2;
        assert(w =~= seq![65u8, 78u8, 68u8, 40u8] + (fingerprint(and_chain(p1)) + r1));
        assert(fingerprint(and_chain(c2)) + s2 =~= seq![65u8, 78u8, 68u8, 40u8] + (fingerprint(and_chain(p2)) + r2));
        assert(fingerprint(and_chain(p1)) + r1 =~= w.skip(4));
        assert(fingerprint(and_chain(p2)) + r2 =~= (fingerprint(and_chain(c2)) + s2).skip(4));
        assert forall|i: int| 0 <= i < p1.len() implies nul_free(#[trigger] p1[i]) by {
            assert(p1[i] == c1[i]);
        }
        assert forall|i: int| 0 <= i < p2.len() implies nul_free(#[trigger] p2[i]) by {
            assert(p2[i] == c2[i]);
        }
        lemma_chain_parse(p1, p2, r1, r2);
        assert(leaf_bytes(c1.last()) + (seq![41u8] + s1) =~= r1.skip(1));
        assert(leaf_bytes(c2.last()) + (seq![41u8] + s2) =~= r2.skip(1));
        assert(nul_free(c1.last()) && nul_free(c2.last()));
        lemma_leaf_parse(c1.last(), c2.last(), seq![41u8] + s1, seq![41u8] + s2);
        assert(s1 =~= (seq![41u8] + s1).skip(1));
        assert(s2 =~= (seq![41u8] + s2).skip(1));
        assert(c1 =~= p1.push(c1.last()));
        assert(c2 =~= p2.push(c2.last()));
    }
}

/// Distinct chains of NUL-free text terms have distinct fingerprints, so
/// distinct sanitized plans are cached under distinct keys (up to the
/// hash).
pub proof fn law_chain_fingerprints_distinct(c1: Seq<Seq<char>>, c2: Seq<Seq<char>>)
    requires
        all_nul_free(c1),
        all_nul_free(c2),
        fingerprint(and_chain(c1)) == fingerprint(and_chain(c2)),
    ensures
        c1 == c2,
{
    lemma_literal_bytes();
    if c1.len() > 0 && c2.len() > 0 {
        assert(fingerprint(and_chain(c1)) + Seq::<u8>::empty() =~= fingerprint(and_chain(c1)));
        assert(fingerprint(and_chain(c2)) + Seq::<u8>::empty() =~= fingerprint(and_chain(c2)));
        lemma_chain_parse(c1, c2, Seq::empty(), Seq::empty());
    } else if c1.len() == 0 && c2.len() == 0 {
        assert(c1 =~= c2);
    } else if c1.len() == 0 {
        lemma_chain_bytes(c2);
        assert(fingerprint(and_chain(c1))[0] == 69u8);
        assert(fingerprint(and_chain(c2))[0] != 69u8);
    } else {
        lemma_chain_bytes(c1);
        assert(fingerprint(and_chain(c2))[0] == 69u8);
        assert(fingerprint(and_chain(c1))[0] != 69u8);
    }
}

/// A search request: the raw query, why it is made, and how many results.
#[derive(Debug, Clone)]
pub struct SearchRequest {
    pub query: String,
    pub reason: String,
    pub limit: usize,
}

impl SearchRequest {
    /// A request with no reason given.
    pub fn new(query: &str, limit: usize) -> (r: Self)
        ensures
            r.query@ == query@,
            r.reason@ == Seq::<char>::empty(),
            r.limit == limit,
    {
        SearchRequest { query: str_from(query), reason: String::new(), limit }
    }

    /// The request with a reason.
    pub fn with_reason(self, reason: &str) -> (r: Self)
        ensures
            r.query@ == self.query@,
            r.reason@ == reason@,
            r.limit == self.limit,
    {
        SearchRequest { query: self.query, reason: str_from(reason), limit: self.limit }
    }
}

/// Whether every candidate was found under scope `s`.
pub open spec fn all_scoped(cs: Seq<CandidateView>, s: Scope) -> bool {
    forall|i: int| 0 <= i < cs.len() ==> #[trigger] cs[i].provenance == s
}

/// Whether every cached result is stamped with the scope it is cached under.
pub open spec fn cache_scoped(m: Map<Seq<u8>, CachedView>) -> bool {
    forall|k: Seq<u8>| #[trigger] m.contains_key(k) ==> all_scoped(m[k].results, m[k].scope)
}

/// The element candidates for the given node ids, found under `s`.
pub open spec fn hits_to_candidates(ids: Seq<u64>, s: Scope) -> Seq<CandidateView> {
    ids.map_values(|id: u64| element_candidate(id, s))
}

/// The node ids of candidate contents.
pub open spec fn view_ids(cs: Seq<CandidateView>) -> Seq<u64> {
    cs.map_values(|c: CandidateView| c.node_id)
}

/// The key a plan's results are cached under for scope `s`.
pub open spec fn key_of(s: Scope, plan: PlanView) -> Seq<u8> {
    crate::digest::blake3_digest(crate::search::cache::key_input(s, fingerprint(plan)))
}

/// Whether a request reaches the scope's partition: its query sanitizes to
/// an allowed plan whose key holds no result cached for this scope.
pub open spec fn reaches_index(cached: Map<Seq<u8>, CachedView>, query: Seq<char>, s: Scope) -> bool {
    &&& sanitize_result(query) matches Ok(p)
    &&& allowed_tree(p)
    &&& !(cached.contains_key(key_of(s, p)) && cached[key_of(s, p)].scope == s)
}

/// What a search of an allowed plan `p` does: the trail gets the
/// `Submitted` record of the plan, then a receipt. A result cached under the
/// plan's key for this very scope is returned as it is; else the partition
/// is searched: what it found (at most `limit` candidates) is returned with a
/// `Success` receipt and cached under the key, or, where the partition is
/// down, the empty result is returned with a `Fallback` receipt.
pub open spec fn searched(
    before: Seq<AuditEntryView>,
    after: Seq<AuditEntryView>,
    cached: Map<Seq<u8>, CachedView>,
    cached_after: Map<Seq<u8>, CachedView>,
    r: Result<Vec<Candidate>, FailClosed>,
    scope: Scope,
    p: PlanView,
    reason: Seq<char>,
    limit: usize,
) -> bool {
    let k = key_of(scope, p);
    let n = before.len();
    &&& after.len() == n + 2
    &&& after.take(n as int) == before
    &&& crate::search::audit::entry_is(after[n as int], scope, p, reason, Seq::empty(), Outcome::Submitted)
    &&& if cached.contains_key(k) && cached[k].scope == scope {
        &&& r matches Ok(v) && candidates_view(v@) == cached[k].results
        &&& crate::search::audit::entry_is(after[n + 1int], scope, PlanView::Empty, Seq::empty(),
            view_ids(cached[k].results), Outcome::Success)
        &&& cached_after == cached
    } else {
        &&& r matches Ok(v) && v@.len() <= limit
        &&& ({
            ||| cached_after == cached.insert(k, CachedView { scope, results: candidates_view(r->Ok_0@) })
                && crate::search::audit::entry_is(after[n + 1int], scope, PlanView::Empty, Seq::empty(),
                view_ids(candidates_view(r->Ok_0@)), Outcome::Success)
            ||| r->Ok_0@.len() == 0 && cached_after == cached
                && crate::search::audit::entry_is(after[n + 1int], scope, PlanView::Empty, Seq::empty(),
                Seq::empty(), Outcome::Fallback)
        })
    }
}

/// Text terms joined by AND hold no phrase.
proof fn lemma_chain_phrases_ok(ts: Seq<Seq<char>>)
    ensures
        phrases_ok(and_chain(ts)),
    decreases ts.len(),
{
    if ts.len() > 1 {
        lemma_chain_phrases_ok(ts.drop_last());
        let leaf = PlanView::Term(Field::Text, ts.last());
        assert(phrases_ok(leaf));
        assert(and_chain(ts) == PlanView::And(Box::new(and_chain(ts.drop_last())), Box::new(leaf)));
    } else if ts.len() == 1 {
        assert(and_chain(ts) == PlanView::Term(Field::Text, ts[0]));
    }
}

/// Where a search stands after its checks: answered, or to be executed
/// against the scope's index partition.
pub enum SearchStep {
    /// The search is answered (denied, or served from the cache).
    Done(Result<Vec<Candidate>, FailClosed>),
    /// The guarded plan must run against the scope's partition, with at most
    /// `limit` hits; the outcome goes to `BrowserSearch::finish_search`.
    Execute { plan: QueryPlan, key: CacheKey, limit: usize },
}

/// The search orchestrator: the index partitions, the audit trail and the
/// scope-bound cache.
pub struct BrowserSearch {
    partitions: PartitionStore,
    audit: AuditLog,
    cache: ScopeCache,
}

impl BrowserSearch {
    /// The audit trail.
    pub closed spec fn trail(&self) -> Seq<AuditEntryView> {
        self.audit@
    }

    /// The cached results.
    pub closed spec fn cached(&self) -> Map<Seq<u8>, CachedView> {
        self.cache@
    }

    /// The partition keys held.
    pub closed spec fn partition_keys(&self) -> Set<u64> {
        self.partitions.keys()
    }

    /// The queries run against the partitions so far.
    pub closed spec fn runs(&self) -> Seq<(u64, QueryDesc, usize)> {
        self.partitions.runs()
    }

    /// Every cached result carries the scope it is cached under.
    pub closed spec fn wf(&self) -> bool {
        cache_scoped(self.cache@)
    }

    /// A search with no partition, an empty trail and an empty cache.
    pub fn new() -> (r: Self)
        ensures
            r.wf(),
            r.trail() == Seq::<AuditEntryView>::empty(),
            r.cached() == Map::<Seq<u8>, CachedView>::empty(),
            r.partition_keys() == Set::<u64>::empty(),
            r.runs() == Seq::<(u64, QueryDesc, usize)>::empty(),
    {
        BrowserSearch { partitions: PartitionStore::new(), audit: AuditLog::new(), cache: ScopeCache::new() }
    }

    /// The number of index partitions.
    pub fn partition_count(&self) -> (r: usize)
        ensures
            r == self.partition_keys().len(),
    {
        self.partitions.partition_count()
    }

    /// The index partition of a scope, created empty on first use (to index
    /// the scope's nodes into).
    pub fn partition_for(&mut self, scope: &Scope) -> (r: Result<Arc<SearchIndex>, FailClosed>)
        ensures
            old(self).partition_keys().contains(partition_of(*scope)) ==> r is Ok,
            r is Ok ==> final(self).partition_keys() == old(self).partition_keys().insert(partition_of(*scope)),
            r matches Err(e) ==> e == FailClosed::IndexDown && final(self).partition_keys() == old(self).partition_keys(),
            final(self).runs() == old(self).runs(),
            final(self).trail() == old(self).trail(),
            final(self).cached() == old(self).cached(),
            final(self).wf() == old(self).wf(),
    {
        self.partitions.get_or_create(scope)
    }

    fn authorize(&self, plan: &QueryPlan) -> (r: Result<(), FailClosed>)
        ensures
            r is Ok <==> allowed_tree(plan@),
            r matches Err(e) ==> e == FailClosed::Unauthorized,
    {
        if !field_is_allowed_tree(plan) {
            return Err(FailClosed::Unauthorized);
        }
        Ok(())
    }

    /// The checks of a search, up to running it: sanitize the query, check
    /// the field allowlist, journal the plan (before any effect), then serve
    /// a cached result of the same scope, or hand back the plan to execute.
    pub fn begin_search(&mut self, request: &SearchRequest, scope: &Scope) -> (r: SearchStep)
        requires
            old(self).wf(),
        ensures
            final(self).wf(),
            final(self).cached() == old(self).cached(),
            final(self).runs() == old(self).runs(),
            final(self).partition_keys() == old(self).partition_keys(),
            r matches SearchStep::Done(Ok(v)) ==> all_scoped(candidates_view(v@), *scope),
            match sanitize_result(request.query@) {
                Err(e) => r matches SearchStep::Done(Err(d)) && d == e && final(self).trail() == old(self).trail(),
                Ok(p) => if !allowed_tree(p) {
                    r matches SearchStep::Done(Err(d)) && d == FailClosed::Unauthorized
                        && final(self).trail() == old(self).trail()
                } else {
                    journaled_then(old(self).trail(), final(self).trail(), old(self).cached(), r, *scope, p,
                        request.reason@, request.limit)
                },
            },
    {
        let plan = match sanitize_parse(request.query.as_str()) {
            Ok(p) => p,
            Err(e) => return SearchStep::Done(Err(e)),
        };
        if let Err(e) = self.authorize(&plan) {
            return SearchStep::Done(Err(e));
        }
        let ghost t0 = self.audit@;
        let _ = self.audit.log_query(scope, &plan, request.reason.as_str());
        let ghost t1 = self.audit@;
        proof {
            assert(t1.take(t0.len() as int) =~= t0);
        }
        let fp = plan_fingerprint(&plan);
        let key = CacheKey::derive(scope, fp.as_slice());
        match self.cache.get(&key, scope) {
            Some(cached) => {
                let _ = self.audit.log_results(scope, cached.as_slice());
                proof {
                    assert(self.cache@.contains_key(key.0@));
                    let t2 = self.audit@;
                    assert(t2.take(t0.len() as int) =~= t0);
                    assert(t2[t0.len() as int] == t1[t0.len() as int]);
                    assert(node_ids(cached@) =~= view_ids(candidates_view(cached@)));
                }
                SearchStep::Done(Ok(cached))
            },
            None => SearchStep::Execute { plan, key, limit: request.limit },
        }
    }

    /// The end of a search, given what the scope's partition returned: node
    /// ids, or a failure of the index. On failure the fallback answers (and
    /// the trail records it); on success every hit becomes an element
    /// candidate stamped with the scope, the trail gets a receipt, and the
    /// result is cached under `key` for this scope.
    pub fn finish_search(
        &mut self,
        scope: &Scope,
        key: CacheKey,
        plan: &QueryPlan,
        hits: Result<Vec<u64>, FailClosed>,
    ) -> (r: Result<Vec<Candidate>, FailClosed>)
        requires
            old(self).wf(),
        ensures
            final(self).wf(),
            final(self).runs() == old(self).runs(),
            final(self).partition_keys() == old(self).partition_keys(),
            r matches Ok(v) && all_scoped(candidates_view(v@), *scope),
            hits is Err ==> {
                &&& r matches Ok(v) && v@.len() == 0
                &&& appended(old(self).trail(), final(self).trail(), *scope, PlanView::Empty, Seq::empty(),
                    Seq::empty(), Outcome::Fallback)
                &&& final(self).cached() == old(self).cached()
            },
            hits matches Ok(ids) ==> {
                &&& r matches Ok(v) && candidates_view(v@) == hits_to_candidates(ids@, *scope)
                &&& appended(old(self).trail(), final(self).trail(), *scope, PlanView::Empty, Seq::empty(),
                    ids@, Outcome::Success)
                &&& final(self).cached() == old(self).cached().insert(
                    key.0@,
                    CachedView { scope: *scope, results: hits_to_candidates(ids@, *scope) },
                )
            },
    {
        match hits {
            Err(_) => {
                let _ = self.audit.log_outcome(scope, Outcome::Fallback);
                deterministic_fallback(plan, scope)
            },
            Ok(ids) => {
                let mut candidates: Vec<Candidate> = Vec::new();
                let mut i: usize = 0;
                while i < ids.len()
                    invariant
                        i <= ids.len(),
                        candidates_view(candidates@) == hits_to_candidates(ids@.take(i as int), *scope),
                    decreases ids.len() - i,
                {
                    let c = element_for(ids[i], scope);
                    let ghost before = candidates_view(candidates@);
                    candidates.push(c);
                    proof {
                        assert(candidates_view(candidates@) =~= before.push(c@));
                        assert(hits_to_candidates(ids@.take(i + 1), *scope) =~= hits_to_candidates(
                            ids@.take(i as int),
                            *scope,
                        ).push(element_candidate(ids@[i as int], *scope)));
                    }
                    i = i + 1;
                }
                proof {
                    assert(ids@.take(ids@.len() as int) =~= ids@);
                    assert forall|j: int| 0 <= j < ids@.len() implies #[trigger] candidates@[j].node_id == ids@[j] by {
                        assert(candidates_view(candidates@)[j] == candidates@[j]@);
                        assert(hits_to_candidates(ids@, *scope)[j] == element_candidate(ids@[j], *scope));
                    }
                    assert(node_ids(candidates@) =~= ids@);
                }
                let _ = self.audit.log_results(scope, candidates.as_slice());
                let copy = copy_candidates(&candidates);
                self.cache.insert(key, scope, copy);
                proof {
                    let m = self.cache@;
                    assert forall|k: Seq<u8>| #[trigger] m.contains_key(k) implies all_scoped(m[k].results, m[k].scope) by {
                        if k != key.0@ {
                            assert(old(self).cache@.contains_key(k));
                        }
                    }
                }
                Ok(candidates)
            },
        }
    }

    /// A search: sanitize, authorize, journal, serve from the scope-bound
    /// cache, or run the plan AND-ed with the scope guard in the scope's
    /// partition (falling back to the empty result if the partition is
    /// down), then leave a receipt and cache what was found.
    pub fn search(&mut self, request: SearchRequest, scope: &Scope) -> (r: Result<
        Vec<Candidate>,
        FailClosed,
    >)
        requires
            old(self).wf(),
            request.limit > 0 || !reaches_index(old(self).cached(), request.query@, *scope),
        ensures
            final(self).wf(),
            r matches Ok(v) ==> all_scoped(candidates_view(v@), *scope),
            !reaches_index(old(self).cached(), request.query@, *scope) ==> final(self).partition_keys() == old(
                self,
            ).partition_keys() && final(self).runs() == old(self).runs(),
            match sanitize_result(request.query@) {
                Err(e) => r == Err::<Vec<Candidate>, FailClosed>(e) && final(self).trail() == old(self).trail()
                    && final(self).cached() == old(self).cached(),
                Ok(p) => if !allowed_tree(p) {
                    r == Err::<Vec<Candidate>, FailClosed>(FailClosed::Unauthorized)
                        && final(self).trail() == old(self).trail() && final(self).cached() == old(self).cached()
                } else {
                    &&& searched(old(self).trail(), final(self).trail(), old(self).cached(), final(self).cached(), r,
                        *scope, p, request.reason@, request.limit)
                    &&& reaches_index(old(self).cached(), request.query@, *scope) ==> ran_in(
                        old(self).runs(),
                        final(self).runs(),
                        old(self).partition_keys(),
                        final(self).partition_keys(),
                        partition_of(*scope),
                        scoped_query(p, *scope),
                        request.limit,
                    )
                },
            },
    {
        match self.begin_search(&request, scope) {
            SearchStep::Done(r) => r,
            SearchStep::Execute { plan, key, limit } => {
                proof {
                    let ts = normalize_all(words(trim(request.query@)));
                    if ts is Ok {
                        lemma_chain_phrases_ok(ts->Ok_0);
                    }
                }
                let guarded = build_scoped_query(&plan, scope);
                let ghost t1 = self.audit@;
                let hits = self.partitions.search(&guarded, scope, limit);
                let ghost h = hits;
                let r = self.finish_search(scope, key, &plan, hits);
                proof {
                    let t2 = self.audit@;
                    let n = old(self).audit@.len();
                    assert(t2.take(n as int) =~= t1.take(n as int));
                    assert(t2[n as int] == t1[n as int]);
                    if let Ok(ids) = h {
                        assert(view_ids(hits_to_candidates(ids@, *scope)) =~= ids@);
                    }
                }
                r
            },
        }
    }

    /// The audit records of the caller's own scope.
    pub fn audit_trail(&self, scope: &Scope) -> (r: Vec<AuditEntry>)
        ensures
            entries_view(r@) == self.trail().filter(of_scope(*scope)),
    {
        self.audit.snapshot(scope)
    }
}

impl Default for BrowserSearch {
    fn default() -> (r: Self)
        ensures
            r.wf(),
            r.trail() == Seq::<AuditEntryView>::empty(),
            r.cached() == Map::<Seq<u8>, CachedView>::empty(),
    {
        BrowserSearch::new()
    }
}

} // verus!
