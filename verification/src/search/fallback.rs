//! Deterministic scoped fallback, used when the partitioned index is down.
//!
//! With no partition reachable it can only return a scoped result or deny:
//! the empty result is scoped, leak-free and never stale.
use vstd::prelude::*;
use crate::search::candidate::Candidate;
use crate::search::error::FailClosed;
use crate::search::query::QueryPlan;
use crate::search::scope::Scope;

verus! {

/// The scoped floor of a search: an empty result.
pub fn deterministic_fallback(plan: &QueryPlan, scope: &Scope) -> (r: Result<Vec<Candidate>, FailClosed>)
    ensures
        r matches Ok(v) && v@.len() == 0,
{
    let _ = plan;
    let _ = scope;
    Ok(Vec::new())
}

} // verus!
