//! Typed search results. A candidate carries the scope it was found under and
//! no score, distance or embedding.
use vstd::prelude::*;
use crate::search::scope::{CapSet, Scope};
use crate::text::str_from;

verus! {

/// The kind of node a candidate refers to.
#[allow(non_camel_case_types)]
#[derive(Clone, Copy, Debug, Default, PartialEq, Eq, Structural)]
pub enum NodeKind {
    #[default]
    ELEMENT,
    TEXT,
    FRAGMENT,
}

/// The name of a node kind.
pub open spec fn kind_name(k: NodeKind) -> Seq<char> {
    match k {
        NodeKind::ELEMENT => "element"@,
        NodeKind::TEXT => "text"@,
        NodeKind::FRAGMENT => "fragment"@,
    }
}

impl NodeKind {
    /// The kind's name.
    pub fn as_str(&self) -> (r: &'static str)
        ensures
            r@ == kind_name(*self),
    {
        match self {
            NodeKind::ELEMENT => "element",
            NodeKind::TEXT => "text",
            NodeKind::FRAGMENT => "fragment",
        }
    }
}

/// Excerpt text that has been sanitized for display.
#[derive(Clone, Debug, Default)]
pub struct SanitizedExcerpt(pub String);

impl std::ops::Deref for SanitizedExcerpt {
    type Target = str;

    fn deref(&self) -> (r: &str)
        ensures
            r@ == self.0@,
    {
        self.0.as_str()
    }
}

/// One search result.
#[derive(Clone, Debug)]
pub struct Candidate {
    pub node_id: u64,
    pub kind: NodeKind,
    pub provenance: Scope,
    pub excerpt: SanitizedExcerpt,
    pub evidence_refs: Vec<u64>,
}

/// The content of a candidate.
pub struct CandidateView {
    pub node_id: u64,
    pub kind: NodeKind,
    pub provenance: Scope,
    pub excerpt: Seq<char>,
    pub evidence_refs: Seq<u64>,
}

impl View for Candidate {
    type V = CandidateView;

    open spec fn view(&self) -> CandidateView {
        CandidateView {
            node_id: self.node_id,
            kind: self.kind,
            provenance: self.provenance,
            excerpt: self.excerpt.0@,
            evidence_refs: self.evidence_refs@,
        }
    }
}

/// The content of a list of candidates.
pub open spec fn candidates_view(s: Seq<Candidate>) -> Seq<CandidateView> {
    s.map_values(|c: Candidate| c@)
}

/// A candidate for `node_id` of kind element, found under `scope`, with no
/// excerpt and no evidence.
pub open spec fn element_candidate(node_id: u64, scope: Scope) -> CandidateView {
    CandidateView {
        node_id,
        kind: NodeKind::ELEMENT,
        provenance: scope,
        excerpt: Seq::empty(),
        evidence_refs: Seq::empty(),
    }
}

/// An element candidate for `node_id` found under `scope`.
pub fn element_for(node_id: u64, scope: &Scope) -> (r: Candidate)
    ensures
        r@ == element_candidate(node_id, *scope),
{
    Candidate {
        node_id,
        kind: NodeKind::ELEMENT,
        provenance: *scope,
        excerpt: SanitizedExcerpt(String::new()),
        evidence_refs: Vec::new(),
    }
}

/// A copy of a list of `u64`.
fn copy_u64s(v: &Vec<u64>) -> (r: Vec<u64>)
    ensures
        r@ == v@,
{
    let mut r: Vec<u64> = Vec::new();
    let mut i: usize = 0;
    while i < v.len()
        invariant
            i <= v.len(),
            r@ == v@.take(i as int),
        decreases v.len() - i,
    {
        r.push(v[i]);
        proof {
            assert(v@.take(i + 1) =~= v@.take(i as int).push(v@[i as int]));
        }
        i = i + 1;
    }
    proof {
        assert(v@.take(v@.len() as int) =~= v@);
    }
    r
}

/// A copy of a candidate.
pub fn copy_candidate(c: &Candidate) -> (r: Candidate)
    ensures
        r@ == c@,
{
    Candidate {
        node_id: c.node_id,
        kind: c.kind,
        provenance: c.provenance,
        excerpt: SanitizedExcerpt(str_from(c.excerpt.0.as_str())),
        evidence_refs: copy_u64s(&c.evidence_refs),
    }
}

/// A copy of a list of candidates.
pub fn copy_candidates(v: &Vec<Candidate>) -> (r: Vec<Candidate>)
    ensures
        candidates_view(r@) == candidates_view(v@),
{
    let mut r: Vec<Candidate> = Vec::new();
    let mut i: usize = 0;
    while i < v.len()
        invariant
            i <= v.len(),
            candidates_view(r@) == candidates_view(v@.take(i as int)),
        decreases v.len() - i,
    {
        let c = copy_candidate(&v[i]);
        r.push(c);
        proof {
            assert(candidates_view(v@.take(i + 1)) =~= candidates_view(v@.take(i as int)).push(v@[i as int]@));
            assert(candidates_view(r@) =~= candidates_view(v@.take(i + 1)));
        }
        i = i + 1;
    }
    proof {
        assert(v@.take(v@.len() as int) =~= v@);
    }
    r
}

impl Default for Candidate {
    fn default() -> (r: Self)
        ensures
            r@ == element_candidate(0, Scope { page_origin: 0, session: 0, tenant: 0, capabilities: CapSet(0) }),
    {
        element_for(0, &Scope::construct(0, 0, 0, CapSet(0)))
    }
}

} // verus!
