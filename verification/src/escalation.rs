//! Escalation records for capability inference.
//!
//! When static analysis cannot determine which capabilities a piece of code
//! needs, the transpiler records an escalation instead of guessing.
use vstd::prelude::*;
use crate::capability::Capability;
use crate::text::{str_from, strings_view};

verus! {

/// The confidence level of capability inference.
#[derive(Debug, Clone, Copy, PartialEq, Eq, Structural)]
pub enum InferenceLevel {
    /// Fully deterministic: inferred from a known API pattern.
    Symbolic,
    /// Partially deterministic: inferred from heuristics.
    Fuzzy,
    /// Cannot determine: needs human review or dynamic analysis.
    Blackbox,
}

/// An escalation record created when capability inference is uncertain.
#[derive(Debug, Clone)]
pub struct EscalationRecord {
    /// Why this escalation exists.
    pub reason: String,
    /// Confidence level of the inference.
    pub level: InferenceLevel,
    /// What blocks deterministic resolution.
    pub blocked_by: Vec<String>,
    /// Evidence paths (AST nodes, source locations) supporting the inference.
    pub evidence_paths: Vec<String>,
    /// Capabilities that might be required (a conservative over-approximation).
    pub possible_capabilities: Vec<Capability>,
    /// Allowed outputs from this escalation.
    pub allowed_outputs: Vec<String>,
}

/// The content of an escalation record.
pub struct EscalationView {
    pub reason: Seq<char>,
    pub level: InferenceLevel,
    pub blocked_by: Seq<Seq<char>>,
    pub evidence_paths: Seq<Seq<char>>,
    pub possible_capabilities: Seq<Capability>,
    pub allowed_outputs: Seq<Seq<char>>,
}

impl View for EscalationRecord {
    type V = EscalationView;

    open spec fn view(&self) -> EscalationView {
        EscalationView {
            reason: self.reason@,
            level: self.level,
            blocked_by: strings_view(self.blocked_by@),
            evidence_paths: strings_view(self.evidence_paths@),
            possible_capabilities: self.possible_capabilities@,
            allowed_outputs: strings_view(self.allowed_outputs@),
        }
    }
}

/// Appends an owned copy of `s` to a list of strings.
fn push_string(v: &mut Vec<String>, s: &str)
    ensures
        strings_view(final(v)@) == strings_view(old(v)@).push(s@),
{
    v.push(str_from(s));
    proof {
        assert(strings_view(v@) =~= strings_view(old(v)@).push(s@));
    }
}

impl EscalationRecord {
    /// A record with a reason and a level, and nothing else yet.
    pub fn new(reason: &str, level: InferenceLevel) -> (r: Self)
        ensures
            r@ == (EscalationView {
                reason: reason@,
                level,
                blocked_by: Seq::empty(),
                evidence_paths: Seq::empty(),
                possible_capabilities: Seq::empty(),
                allowed_outputs: Seq::empty(),
            }),
    {
        let r = EscalationRecord {
            reason: str_from(reason),
            level,
            blocked_by: Vec::new(),
            evidence_paths: Vec::new(),
            possible_capabilities: Vec::new(),
            allowed_outputs: Vec::new(),
        };
        proof {
            assert(strings_view(r.blocked_by@) =~= Seq::<Seq<char>>::empty());
            assert(strings_view(r.evidence_paths@) =~= Seq::<Seq<char>>::empty());
            assert(strings_view(r.allowed_outputs@) =~= Seq::<Seq<char>>::empty());
        }
        r
    }

    /// The record with one more blocker.
    pub fn blocked_by(self, blocker: &str) -> (r: Self)
        ensures
            r@ == (EscalationView { blocked_by: self@.blocked_by.push(blocker@), ..self@ }),
    {
        let mut r = self;
        push_string(&mut r.blocked_by, blocker);
        r
    }

    /// The record with one more evidence path.
    pub fn evidence(self, path: &str) -> (r: Self)
        ensures
            r@ == (EscalationView { evidence_paths: self@.evidence_paths.push(path@), ..self@ }),
    {
        let mut r = self;
        push_string(&mut r.evidence_paths, path);
        r
    }

    /// The record with one more possible capability.
    pub fn capability(self, cap: Capability) -> (r: Self)
        ensures
            r@ == (EscalationView { possible_capabilities: self@.possible_capabilities.push(cap), ..self@ }),
    {
        let mut r = self;
        r.possible_capabilities.push(cap);
        r
    }

    /// The record with one more allowed output.
    pub fn allowed_output(self, output: &str) -> (r: Self)
        ensures
            r@ == (EscalationView { allowed_outputs: self@.allowed_outputs.push(output@), ..self@ }),
    {
        let mut r = self;
        push_string(&mut r.allowed_outputs, output);
        r
    }
}

} // verus!
