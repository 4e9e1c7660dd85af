//! Append-only audit trail.
//!
//! Every query is journaled before it runs (audit-before-effect). The trail
//! records the sanitized plan, never raw user input, and a caller reads back
//! only the entries of its own scope.
use vstd::prelude::*;
use crate::search::candidate::Candidate;
use crate::search::error::FailClosed;
use crate::search::query::{copy_plan, PlanView, QueryPlan};
use crate::search::scope::Scope;
use crate::text::str_from;

verus! {

/// Terminal outcome of a search, plus `Submitted` for the record written
/// before the search runs.
#[derive(Debug, Clone, Copy, PartialEq, Eq, Structural)]
pub enum Outcome {
    Submitted,
    Success,
    Denied,
    Fallback,
}

/// Seconds since the Unix epoch, read from the system clock; 0 where the
/// clock reads before the epoch.
///
/// Trusted: calls `SystemTime::now`, `SystemTime::duration_since(UNIX_EPOCH)`
/// and `Duration::as_secs`. The result is the time of the call, so nothing is
/// stated of it.
#[verifier::external_body]
fn unix_time_secs() -> (r: u64) {
    std::time::SystemTime::now()
        .duration_since(std::time::UNIX_EPOCH)
        .map(|d| d.as_secs())
        .unwrap_or(0)
}

/// Trusted timestamp (unix seconds), never derived from client input.
#[derive(Debug, Clone, Copy, PartialEq, Eq, Hash, Structural)]
pub struct TrustedTime(pub u64);

impl TrustedTime {
    /// The current time from the system clock.
    pub fn now() -> (r: Self) {
        TrustedTime(unix_time_secs())
    }
}

/// One record in the audit trail. `candidates` holds node ids.
#[derive(Debug, Clone)]
pub struct AuditEntry {
    pub scope: Scope,
    pub plan: QueryPlan,
    pub reason: String,
    pub candidates: Vec<u64>,
    pub timestamp: TrustedTime,
    pub outcome: Outcome,
}

/// The content of an audit record.
pub struct AuditEntryView {
    pub scope: Scope,
    pub plan: PlanView,
    pub reason: Seq<char>,
    pub candidates: Seq<u64>,
    pub timestamp: TrustedTime,
    pub outcome: Outcome,
}

impl View for AuditEntry {
    type V = AuditEntryView;

    open spec fn view(&self) -> AuditEntryView {
        AuditEntryView {
            scope: self.scope,
            plan: self.plan@,
            reason: self.reason@,
            candidates: self.candidates@,
            timestamp: self.timestamp,
            outcome: self.outcome,
        }
    }
}

/// The content of a list of audit records.
pub open spec fn entries_view(s: Seq<AuditEntry>) -> Seq<AuditEntryView> {
    s.map_values(|e: AuditEntry| e@)
}

/// Whether a record holds the given content, whatever its timestamp.
pub open spec fn entry_is(
    e: AuditEntryView,
    scope: Scope,
    plan: PlanView,
    reason: Seq<char>,
    candidates: Seq<u64>,
    outcome: Outcome,
) -> bool {
    &&& e.scope == scope
    &&& e.plan == plan
    &&& e.reason == reason
    &&& e.candidates == candidates
    &&& e.outcome == outcome
}

/// The test "belongs to scope `s`".
pub open spec fn of_scope(s: Scope) -> spec_fn(AuditEntryView) -> bool {
    |e: AuditEntryView| e.scope == s
}

/// The node ids of a list of candidates.
pub open spec fn node_ids(cs: Seq<Candidate>) -> Seq<u64> {
    cs.map_values(|c: Candidate| c.node_id)
}

/// Whether `after` is `before` with one record appended that holds the given
/// content.
pub open spec fn appended(
    before: Seq<AuditEntryView>,
    after: Seq<AuditEntryView>,
    scope: Scope,
    plan: PlanView,
    reason: Seq<char>,
    candidates: Seq<u64>,
    outcome: Outcome,
) -> bool {
    &&& after.len() == before.len() + 1
    &&& after.drop_last() == before
    &&& entry_is(after.last(), scope, plan, reason, candidates, outcome)
}

/// Append-only audit log.
#[derive(Debug, Default)]
pub struct AuditLog {
    entries: Vec<AuditEntry>,
}

impl View for AuditLog {
    type V = Seq<AuditEntryView>;

    closed spec fn view(&self) -> Seq<AuditEntryView> {
        entries_view(self.entries@)
    }
}

/// A copy of a list of `u64`.
fn copy_ids(v: &Vec<u64>) -> (r: Vec<u64>)
    ensures
        r@ == v@,
{
    let mut r: Vec<u64> = Vec::new();
    let mut i: usize = 0;
    while i < v.len()
        invariant
            i <= v.len(),
            r@ == v@.take(i as int),
        decreases v.len() - i,
    {
        r.push(v[i]);
        proof {
            assert(v@.take(i + 1) =~= v@.take(i as int).push(v@[i as int]));
        }
        i = i + 1;
    }
    proof {
        assert(v@.take(v@.len() as int) =~= v@);
    }
    r
}

/// A copy of an audit record.
fn copy_entry(e: &AuditEntry) -> (r: AuditEntry)
    ensures
        r@ == e@,
{
    AuditEntry {
        scope: e.scope,
        plan: copy_plan(&e.plan),
        reason: str_from(e.reason.as_str()),
        candidates: copy_ids(&e.candidates),
        timestamp: e.timestamp,
        outcome: e.outcome,
    }
}

impl AuditLog {
    /// An empty log.
    pub fn new() -> (r: Self)
        ensures
            r@ == Seq::<AuditEntryView>::empty(),
    {
        let r = AuditLog { entries: Vec::new() };
        proof {
            assert(entries_view(r.entries@) =~= Seq::<AuditEntryView>::empty());
        }
        r
    }

    fn append(&mut self, entry: AuditEntry)
        ensures
            final(self)@ == old(self)@.push(entry@),
            final(self)@.len() == old(self)@.len() + 1,
            final(self)@.drop_last() == old(self)@,
            final(self)@.last() == entry@,
    {
        self.entries.push(entry);
        proof {
            assert(entries_view(self.entries@) =~= entries_view(old(self).entries@).push(entry@));
            assert(entries_view(self.entries@).drop_last() =~= entries_view(old(self).entries@));
        }
    }

    /// Journal the query before execution: scope, sanitized plan and reason,
    /// with no candidates and outcome `Submitted`.
    pub fn log_query(&mut self, scope: &Scope, plan: &QueryPlan, reason: &str) -> (r: Result<(), FailClosed>)
        ensures
            r is Ok,
            appended(old(self)@, final(self)@, *scope, plan@, reason@, Seq::empty(), Outcome::Submitted),
    {
        let entry = AuditEntry {
            scope: *scope,
            plan: copy_plan(plan),
            reason: str_from(reason),
            candidates: Vec::new(),
            timestamp: TrustedTime::now(),
            outcome: Outcome::Submitted,
        };
        assert(entry.candidates@ =~= Seq::<u64>::empty());
        self.append(entry);
        Ok(())
    }

    /// Completion receipt: the node ids of the resolved candidates, under
    /// outcome `Success`. The plan is left empty: the record written before
    /// the search carries it.
    pub fn log_results(&mut self, scope: &Scope, candidates: &[Candidate]) -> (r: Result<(), FailClosed>)
        ensures
            r is Ok,
            appended(old(self)@, final(self)@, *scope, PlanView::Empty, Seq::empty(), node_ids(candidates@),
                Outcome::Success),
    {
        let mut ids: Vec<u64> = Vec::new();
        let mut i: usize = 0;
        while i < candidates.len()
            invariant
                i <= candidates.len(),
                ids@ == node_ids(candidates@.take(i as int)),
            decreases candidates.len() - i,
        {
            ids.push(candidates[i].node_id);
            proof {
                assert(node_ids(candidates@.take(i + 1)) =~= node_ids(candidates@.take(i as int)).push(
                    candidates@[i as int].node_id,
                ));
            }
            i = i + 1;
        }
        proof {
            assert(candidates@.take(candidates@.len() as int) =~= candidates@);
        }
        let plan = QueryPlan::Empty;
        assert(plan@ == PlanView::Empty);
        let entry = AuditEntry {
            scope: *scope,
            plan,
            reason: String::new(),
            candidates: ids,
            timestamp: TrustedTime::now(),
            outcome: Outcome::Success,
        };
        assert(entry.reason@ =~= Seq::<char>::empty());
        self.append(entry);
        Ok(())
    }

    /// Record a non-success terminal state (fallback or explicit deny).
    pub fn log_outcome(&mut self, scope: &Scope, outcome: Outcome) -> (r: Result<(), FailClosed>)
        ensures
            r is Ok,
            appended(old(self)@, final(self)@, *scope, PlanView::Empty, Seq::empty(), Seq::empty(), outcome),
    {
        let plan = QueryPlan::Empty;
        assert(plan@ == PlanView::Empty);
        let entry = AuditEntry {
            scope: *scope,
            plan,
            reason: String::new(),
            candidates: Vec::new(),
            timestamp: TrustedTime::now(),
            outcome,
        };
        assert(entry.reason@ =~= Seq::<char>::empty());
        assert(entry.candidates@ =~= Seq::<u64>::empty());
        self.append(entry);
        Ok(())
    }

    /// The number of records.
    pub fn len(&self) -> (r: usize)
        ensures
            r == self@.len(),
    {
        self.entries.len()
    }

    /// Whether the log holds no record.
    pub fn is_empty(&self) -> (r: bool)
        ensures
            r == (self@.len() == 0),
    {
        self.entries.len() == 0
    }

    /// The records of the caller's own scope, in order.
    pub fn snapshot(&self, scope: &Scope) -> (r: Vec<AuditEntry>)
        ensures
            entries_view(r@) == self@.filter(of_scope(*scope)),
    {
        let mut r: Vec<AuditEntry> = Vec::new();
        let mut i: usize = 0;
        while i < self.entries.len()
            invariant
                i <= self.entries.len(),
                entries_view(r@) == entries_view(self.entries@.take(i as int)).filter(of_scope(*scope)),
            decreases self.entries.len() - i,
        {
            let ghost before = entries_view(r@);
            proof {
                reveal(Seq::filter);
                let ev = entries_view(self.entries@.take(i + 1));
                assert(ev.drop_last() =~= entries_view(self.entries@.take(i as int)));
                assert(ev.last() == self.entries@[i as int]@);
            }
            if self.entries[i].scope == *scope {
                let e = copy_entry(&self.entries[i]);
                r.push(e);
                proof {
                    assert(entries_view(r@) =~= before.push(e@));
                }
            }
            i = i + 1;
        }
        proof {
            assert(self.entries@.take(self.entries@.len() as int) =~= self.entries@);
        }
        r
    }
}

} // verus!
