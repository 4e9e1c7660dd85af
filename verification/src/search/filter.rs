//! The scope guard: every query run against a partition is the user's plan
//! AND-ed with a mandatory term on the caller's scope hash.
use vstd::prelude::*;
use crate::search::index::{IndexQuery, QueryDesc, ARIA_LABEL_FIELD, ROLE_FIELD, SCOPE_HASH_FIELD, TAG_FIELD, TEXT_FIELD};
use crate::search::partition::scope_hash;
use crate::search::query::{terms_view, Field, PlanView, QueryPlan};
use crate::search::scope::{scope_digest, Scope};

verus! {

/// How a clause takes part in a boolean query.
#[derive(Debug, Clone, Copy, PartialEq, Eq, Structural)]
pub enum Occur {
    Must,
    Should,
    MustNot,
}

/// A scoped query with its inspectable guard.
pub struct GuardedPlan {
    pub query: IndexQuery,
    pub guard: Occur,
    pub scope_hash: u64,
}

impl GuardedPlan {
    /// The query to run.
    pub fn as_query(&self) -> (r: &IndexQuery)
        ensures
            r.desc() == self.query.desc(),
    {
        &self.query
    }
}

/// The schema field a plan field is searched in.
pub open spec fn field_number(f: Field) -> u32 {
    match f {
        Field::Tag => TAG_FIELD,
        Field::Role => ROLE_FIELD,
        Field::Text => TEXT_FIELD,
        Field::AriaLabel => ARIA_LABEL_FIELD,
    }
}

/// Whether every phrase of a plan has at least two terms (a phrase query
/// of fewer is refused by tantivy).
pub open spec fn phrases_ok(p: PlanView) -> bool
    decreases p,
{
    match p {
        PlanView::Phrase(_, ts) => ts.len() > 1,
        PlanView::And(a, b) => phrases_ok(*a) && phrases_ok(*b),
        PlanView::Or(a, b) => phrases_ok(*a) && phrases_ok(*b),
        _ => true,
    }
}

/// The query a plan is run as: terms and phrases on their fields, AND as
/// two `Must` clauses, OR as two `Should` clauses, the empty plan as every
/// document and a vector plan as none.
pub open spec fn plan_query(p: PlanView) -> QueryDesc
    decreases p,
{
    match p {
        PlanView::Term(f, t) => QueryDesc::Term(field_number(f), t),
        PlanView::Phrase(f, ts) => QueryDesc::Phrase(field_number(f), ts),
        PlanView::And(a, b) => QueryDesc::Must(Box::new(plan_query(*a)), Box::new(plan_query(*b))),
        PlanView::Or(a, b) => QueryDesc::Should(Box::new(plan_query(*a)), Box::new(plan_query(*b))),
        PlanView::Empty => QueryDesc::All,
        PlanView::Vector(_) => QueryDesc::Nothing,
    }
}

/// The query a plan is run as for a scope: the plan's query and the term on
/// the scope's hash, both required.
pub open spec fn scoped_query(p: PlanView, s: Scope) -> QueryDesc {
    QueryDesc::Must(Box::new(plan_query(p)), Box::new(QueryDesc::U64Term(SCOPE_HASH_FIELD, scope_digest(s))))
}

/// The schema field of a plan field.
fn resolve_field(f: &Field) -> (r: u32)
    ensures
        r == field_number(*f),
{
    match f {
        Field::Tag => TAG_FIELD,
        Field::Role => ROLE_FIELD,
        Field::Text => TEXT_FIELD,
        Field::AriaLabel => ARIA_LABEL_FIELD,
    }
}

/// The query of a plan.
pub fn build_from_plan(plan: &QueryPlan) -> (r: IndexQuery)
    requires
        phrases_ok(plan@),
    ensures
        r.desc() == plan_query(plan@),
    decreases plan,
{
    match plan {
        QueryPlan::Term(f, t) => IndexQuery::text_term(resolve_field(f), t.as_str()),
        QueryPlan::Phrase(f, ts) => {
            let mut words: Vec<String> = Vec::new();
            let mut i: usize = 0;
            while i < ts.len()
                invariant
                    i <= ts.len(),
                    crate::text::strings_view(words@) == terms_view(ts@).take(i as int),
                decreases ts.len() - i,
            {
                let w = crate::text::str_from(ts[i].as_str());
                let ghost before = words@;
                words.push(w);
                proof {
                    assert(crate::text::strings_view(words@) =~= crate::text::strings_view(before).push(w@));
                    assert(terms_view(ts@).take(i + 1) =~= terms_view(ts@).take(i as int).push(ts@[i as int].0@));
                }
                i = i + 1;
            }
            proof {
                assert(terms_view(ts@).take(ts@.len() as int) =~= terms_view(ts@));
            }
            IndexQuery::phrase(resolve_field(f), words.as_slice())
        },
        QueryPlan::And(a, b) => IndexQuery::and(build_from_plan(a), build_from_plan(b)),
        QueryPlan::Or(a, b) => IndexQuery::or(build_from_plan(a), build_from_plan(b)),
        QueryPlan::Empty => IndexQuery::all(),
        QueryPlan::Vector(_, _) => IndexQuery::nothing(),
    }
}

/// The query of a plan, AND-ed with the mandatory term on the scope's hash.
pub fn build_scoped_query(plan: &QueryPlan, scope: &Scope) -> (r: IndexQuery)
    requires
        phrases_ok(plan@),
    ensures
        r.desc() == scoped_query(plan@, *scope),
{
    let user = build_from_plan(plan);
    let guard = IndexQuery::u64_term(SCOPE_HASH_FIELD, scope_hash(scope));
    IndexQuery::and(user, guard)
}

/// Inject the scope filter into a plan: the guarded query, with its guard
/// (`Must`) and the scope hash it filters on, open to inspection.
pub fn inject_scope_filter(plan: QueryPlan, scope: &Scope) -> (r: GuardedPlan)
    requires
        phrases_ok(plan@),
    ensures
        r.query.desc() == scoped_query(plan@, *scope),
        r.guard == Occur::Must,
        r.scope_hash == scope_digest(*scope),
{
    let hash = scope_hash(scope);
    GuardedPlan { query: build_scoped_query(&plan, scope), guard: Occur::Must, scope_hash: hash }
}

/// A hit: the id of a matching document, and the hash of the scope whose
/// partition it came from.
#[derive(Debug, Clone, Copy, PartialEq, Eq, Structural)]
pub struct Hit {
    pub doc_id: u64,
    pub scope_hash: u64,
}

/// The filter applied to hits after a search. The scope guard already
/// restricted the query, so every hit is kept.
pub fn post_filter(hits: Vec<Hit>, scope: &Scope) -> (r: Vec<Hit>)
    ensures
        r@ == hits@,
{
    let _ = scope;
    hits
}

} // verus!
