//! The one error of the search layer: every failure denies.
use vstd::prelude::*;

verus! {

/// A denied search. Every failure closes: there is no partial result.
#[derive(Debug, Clone, Copy, PartialEq, Eq, Structural)]
pub enum FailClosed {
    NoScope,
    BadPlan,
    IndexDown,
    AuditFail,
    PartitionMissing,
    Unauthorized,
}

/// The text of a denial.
pub open spec fn fail_text(e: FailClosed) -> Seq<char> {
    match e {
        FailClosed::NoScope => "no scope provided"@,
        FailClosed::BadPlan => "query plan rejected"@,
        FailClosed::IndexDown => "search index unavailable"@,
        FailClosed::AuditFail => "audit log write failed"@,
        FailClosed::PartitionMissing => "scope partition missing"@,
        FailClosed::Unauthorized => "scope lacks capability"@,
    }
}

impl FailClosed {
    /// The human-readable text of the denial.
    pub fn message(&self) -> (r: &'static str)
        ensures
            r@ == fail_text(*self),
    {
        match self {
            FailClosed::NoScope => "no scope provided",
            FailClosed::BadPlan => "query plan rejected",
            FailClosed::IndexDown => "search index unavailable",
            FailClosed::AuditFail => "audit log write failed",
            FailClosed::PartitionMissing => "scope partition missing",
            FailClosed::Unauthorized => "scope lacks capability",
        }
    }
}

} // verus!
