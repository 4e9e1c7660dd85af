//! Data-flow taint labels and the rules for flowing and mixing them.
//!
//! Every data flow carries a security label. Secret data never mixes with page
//! data, page data never becomes AI input, user data never escalates to secret.
use vstd::prelude::*;
use crate::text::str_from;

verus! {

/// Security labels for data flows, ordered Clean < User < Page < Ai < Secret.
#[derive(Debug, Clone, Copy, PartialEq, Eq, PartialOrd, Ord, Hash, Structural)]
pub enum Taint {
    /// Browser-internal data. Can mix with anything.
    Clean,
    /// User input.
    User,
    /// Page content (untrusted).
    Page,
    /// AI-generated content.
    Ai,
    /// Secrets (cookies, credentials, tokens).
    Secret,
}

/// Errors from taint checking.
#[derive(Debug, Clone, Copy, PartialEq, Eq, Structural)]
pub enum TaintError {
    FlowViolation { source: Taint, sink: Taint },
    MixViolation { a: Taint, b: Taint },
}

/// Position of a label in the sensitivity order.
pub open spec fn taint_rank(t: Taint) -> nat {
    match t {
        Taint::Clean => 0,
        Taint::User => 1,
        Taint::Page => 2,
        Taint::Ai => 3,
        Taint::Secret => 4,
    }
}

/// The flow relation: Clean flows anywhere and anything flows to Clean;
/// User and Ai flow between each other; otherwise only a label to itself.
pub open spec fn flows(source: Taint, sink: Taint) -> bool {
    ||| source == Taint::Clean
    ||| sink == Taint::Clean
    ||| source == sink
    ||| (source == Taint::User && sink == Taint::Ai)
    ||| (source == Taint::Ai && sink == Taint::User)
}

/// The mixing relation: Clean mixes with anything, equal labels mix,
/// User and Ai mix; nothing else does.
pub open spec fn mixes(a: Taint, b: Taint) -> bool {
    ||| a == Taint::Clean
    ||| b == Taint::Clean
    ||| a == b
    ||| (a == Taint::User && b == Taint::Ai)
    ||| (a == Taint::Ai && b == Taint::User)
}

/// The more sensitive of two labels.
pub open spec fn taint_max(a: Taint, b: Taint) -> Taint {
    if taint_rank(a) <= taint_rank(b) { b } else { a }
}

/// The display name of a label.
pub open spec fn taint_name(t: Taint) -> Seq<char> {
    match t {
        Taint::Clean => "Clean"@,
        Taint::User => "User"@,
        Taint::Page => "Page"@,
        Taint::Ai => "Ai"@,
        Taint::Secret => "Secret"@,
    }
}

impl Taint {
    /// Position of this label in the sensitivity order.
    pub fn rank(self) -> (r: u8)
        ensures
            r as nat == taint_rank(self),
    {
        match self {
            Taint::Clean => 0,
            Taint::User => 1,
            Taint::Page => 2,
            Taint::Ai => 3,
            Taint::Secret => 4,
        }
    }

    /// Check if data with this taint can flow to a sink with the given taint.
    pub fn can_flow_to(self, sink: Taint) -> (r: bool)
        ensures
            r == flows(self, sink),
    {
        match (self, sink) {
            (Taint::Clean, _) => true,
            (_, Taint::Clean) => true,
            (Taint::User, Taint::User) => true,
            (Taint::User, Taint::Ai) => true,
            (Taint::Page, Taint::Page) => true,
            (Taint::Ai, Taint::User) => true,
            (Taint::Ai, Taint::Ai) => true,
            (Taint::Secret, Taint::Secret) => true,
            _ => false,
        }
    }

    /// Check if two taint labels can coexist in the same context.
    pub fn can_mix_with(self, other: Taint) -> (r: bool)
        ensures
            r == mixes(self, other),
    {
        match (self, other) {
            (Taint::Clean, _) => true,
            (_, Taint::Clean) => true,
            (Taint::User, Taint::Ai) => true,
            (Taint::Ai, Taint::User) => true,
            (a, b) => a == b,
        }
    }

    /// Propagate taint through a transformation: the more sensitive label wins.
    pub fn propagate(self, other: Option<Taint>) -> (r: Taint)
        ensures
            match other {
                Some(o) => r == taint_max(self, o),
                None => r == self,
            },
    {
        match other {
            Some(o) => {
                if self.rank() <= o.rank() {
                    o
                } else {
                    self
                }
            },
            None => self,
        }
    }

    /// The display name of this label.
    pub fn name(self) -> (s: &'static str)
        ensures
            s@ == taint_name(self),
    {
        match self {
            Taint::Clean => "Clean",
            Taint::User => "User",
            Taint::Page => "Page",
            Taint::Ai => "Ai",
            Taint::Secret => "Secret",
        }
    }
}

impl TaintError {
    /// The human-readable description of the error.
    pub fn message(&self) -> (s: String)
        ensures
            s@ == match *self {
                TaintError::FlowViolation { source, sink } => "taint violation: cannot flow from "@
                    + taint_name(source) + " to "@ + taint_name(sink),
                TaintError::MixViolation { a, b } => "taint mix violation: "@ + taint_name(a)
                    + " and "@ + taint_name(b) + " cannot be in the same context"@,
            },
    {
        match *self {
            TaintError::FlowViolation { source, sink } => {
                let mut s = str_from("taint violation: cannot flow from ");
                s.append(source.name());
                s.append(" to ");
                s.append(sink.name());
                s
            },
            TaintError::MixViolation { a, b } => {
                let mut s = str_from("taint mix violation: ");
                s.append(a.name());
                s.append(" and ");
                s.append(b.name());
                s.append(" cannot be in the same context");
                s
            },
        }
    }
}

/// Check a data flow and return an error if it violates taint rules.
pub fn check_flow(source: Taint, sink: Taint) -> (r: Result<(), TaintError>)
    ensures
        flows(source, sink) ==> r == Ok::<(), TaintError>(()),
        !flows(source, sink) ==> r == Err::<(), TaintError>(TaintError::FlowViolation { source, sink }),
{
    if source.can_flow_to(sink) {
        Ok(())
    } else {
        Err(TaintError::FlowViolation { source, sink })
    }
}

/// Check if two taint labels can coexist and return an error if not.
pub fn check_mix(a: Taint, b: Taint) -> (r: Result<(), TaintError>)
    ensures
        mixes(a, b) ==> r == Ok::<(), TaintError>(()),
        !mixes(a, b) ==> r == Err::<(), TaintError>(TaintError::MixViolation { a, b }),
{
    if a.can_mix_with(b) {
        Ok(())
    } else {
        Err(TaintError::MixViolation { a, b })
    }
}

/// Mixing is symmetric: two labels may share a context in either order.
pub proof fn law_mix_symmetric(a: Taint, b: Taint)
    ensures
        mixes(a, b) == mixes(b, a),
{
}

/// Clean data flows to every sink, and every label flows into Clean.
pub proof fn law_clean_flows_anywhere(t: Taint)
    ensures
        flows(Taint::Clean, t),
        flows(t, Taint::Clean),
{
}

/// The three documented rules: secret never meets page data, page data never
/// becomes AI input, user data never escalates to secret.
pub proof fn law_documented_rules()
    ensures
        !mixes(Taint::Secret, Taint::Page),
        !flows(Taint::Secret, Taint::Page),
        !flows(Taint::Page, Taint::Secret),
        !flows(Taint::Page, Taint::Ai),
        !flows(Taint::User, Taint::Secret),
{
}

/// Data may flow between two labels exactly when they may share a context.
pub proof fn law_flow_is_mix(a: Taint, b: Taint)
    ensures
        flows(a, b) == mixes(a, b),
{
}

/// Propagation takes the maximum: it never lowers sensitivity, and it is
/// commutative, associative and idempotent.
pub proof fn law_propagate_is_max(a: Taint, b: Taint, c: Taint)
    ensures
        taint_rank(a) <= taint_rank(taint_max(a, b)),
        taint_rank(b) <= taint_rank(taint_max(a, b)),
        taint_max(a, b) == taint_max(b, a),
        taint_max(a, taint_max(b, c)) == taint_max(taint_max(a, b), c),
        taint_max(a, a) == a,
{
}

/// The sinks each label flows to, as documented: Clean flows anywhere; User
/// flows to Clean, User and Ai; Page to Clean and Page; Ai to Clean, User
/// and Ai; Secret to Clean and Secret.
pub proof fn law_flow_table(sink: Taint)
    ensures
        flows(Taint::Clean, sink),
        flows(Taint::User, sink) <==> (sink == Taint::Clean || sink == Taint::User || sink == Taint::Ai),
        flows(Taint::Page, sink) <==> (sink == Taint::Clean || sink == Taint::Page),
        flows(Taint::Ai, sink) <==> (sink == Taint::Clean || sink == Taint::User || sink == Taint::Ai),
        flows(Taint::Secret, sink) <==> (sink == Taint::Clean || sink == Taint::Secret),
{
}

/// The labels each label mixes with, as documented: Clean mixes with
/// anything, equal labels mix, User and Ai mix, and nothing else does.
pub proof fn law_mix_table(other: Taint)
    ensures
        mixes(Taint::Clean, other),
        mixes(Taint::User, other) <==> (other == Taint::Clean || other == Taint::User || other == Taint::Ai),
        mixes(Taint::Page, other) <==> (other == Taint::Clean || other == Taint::Page),
        mixes(Taint::Ai, other) <==> (other == Taint::Clean || other == Taint::User || other == Taint::Ai),
        mixes(Taint::Secret, other) <==> (other == Taint::Clean || other == Taint::Secret),
{
}

} // verus!
