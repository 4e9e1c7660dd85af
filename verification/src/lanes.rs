//! Compression lanes: security-typed compression contexts.
//!
//! Data from different security domains is never compressed together;
//! SECRET and PAGE data never share a compression context.
use vstd::prelude::*;
use crate::taint::Taint;

verus! {

/// Compression lane — a security-typed compression context.
#[derive(Debug, Clone, Copy, PartialEq, Eq, Hash, Structural)]
pub enum Lane {
    /// Safe global dictionary compression.
    PublicStatic,
    /// Safe session compression.
    PublicDynamic,
    /// Private/session-isolated.
    PrivateReference,
    /// Private/secret. Never compressed with other lanes.
    PrivateSecret,
    /// Attacker-controlled. Separate context.
    AttackerControlled,
    /// Bulk data. Chunked, content-addressed.
    BulkBlob,
}

/// Errors from lane checking.
#[derive(Debug, Clone, Copy, PartialEq, Eq, Structural)]
pub enum LaneError {
    TaintViolation { lane: Lane, taint: Taint },
    MixViolation { a: Lane, b: Lane },
}

/// The taint labels a lane admits, in the order the lane lists them.
pub open spec fn lane_taints(lane: Lane) -> Seq<Taint> {
    match lane {
        Lane::PublicStatic => seq![Taint::Clean],
        Lane::PublicDynamic => seq![Taint::Clean, Taint::User],
        Lane::PrivateReference => seq![Taint::Clean, Taint::User],
        Lane::PrivateSecret => seq![Taint::Secret],
        Lane::AttackerControlled => seq![Taint::Page],
        Lane::BulkBlob => seq![Taint::Clean, Taint::User, Taint::Page],
    }
}

/// The lane that data with a given label goes to.
pub open spec fn lane_for(taint: Taint) -> Lane {
    match taint {
        Taint::Clean => Lane::PublicStatic,
        Taint::User => Lane::PublicDynamic,
        Taint::Page => Lane::AttackerControlled,
        Taint::Ai => Lane::PublicDynamic,
        Taint::Secret => Lane::PrivateSecret,
    }
}

impl Lane {
    /// Get the allowed taint labels for this lane.
    pub fn allowed_taints(&self) -> (r: Vec<Taint>)
        ensures
            r@ == lane_taints(*self),
    {
        match self {
            Lane::PublicStatic => vec![Taint::Clean],
            Lane::PublicDynamic => vec![Taint::Clean, Taint::User],
            Lane::PrivateReference => vec![Taint::Clean, Taint::User],
            Lane::PrivateSecret => vec![Taint::Secret],
            Lane::AttackerControlled => vec![Taint::Page],
            Lane::BulkBlob => vec![Taint::Clean, Taint::User, Taint::Page],
        }
    }

    /// Check if a taint label is allowed in this lane.
    pub fn allows_taint(&self, taint: Taint) -> (r: bool)
        ensures
            r == lane_taints(*self).contains(taint),
    {
        let allowed = self.allowed_taints();
        let mut i: usize = 0;
        while i < allowed.len()
            invariant
                i <= allowed.len(),
                allowed@ == lane_taints(*self),
                forall|j: int| 0 <= j < i ==> allowed@[j] != taint,
            decreases allowed.len() - i,
        {
            if allowed[i] == taint {
                return true;
            }
            i = i + 1;
        }
        false
    }

    /// Check if two lanes can coexist in the same compression context:
    /// exactly when they are the same lane.
    pub fn can_mix_with(&self, other: &Lane) -> (r: bool)
        ensures
            r == (*self == *other),
    {
        match (self, other) {
            (Lane::PrivateSecret, Lane::PrivateSecret) => true,
            (Lane::PrivateSecret, _) => false,
            (_, Lane::PrivateSecret) => false,
            (Lane::AttackerControlled, Lane::AttackerControlled) => true,
            (a, b) => *a == *b,
        }
    }

    /// Get the lane for a given taint label.
    pub fn for_taint(taint: Taint) -> (r: Lane)
        ensures
            r == lane_for(taint),
    {
        match taint {
            Taint::Clean => Lane::PublicStatic,
            Taint::User => Lane::PublicDynamic,
            Taint::Page => Lane::AttackerControlled,
            Taint::Ai => Lane::PublicDynamic,
            Taint::Secret => Lane::PrivateSecret,
        }
    }
}

/// Check if a taint is allowed in a lane.
pub fn check_lane_taint(lane: Lane, taint: Taint) -> (r: Result<(), LaneError>)
    ensures
        lane_taints(lane).contains(taint) ==> r == Ok::<(), LaneError>(()),
        !lane_taints(lane).contains(taint) ==> r == Err::<(), LaneError>(
            LaneError::TaintViolation { lane, taint },
        ),
{
    if lane.allows_taint(taint) {
        Ok(())
    } else {
        Err(LaneError::TaintViolation { lane, taint })
    }
}

/// Check if two lanes can coexist.
pub fn check_lane_mix(a: Lane, b: Lane) -> (r: Result<(), LaneError>)
    ensures
        a == b ==> r == Ok::<(), LaneError>(()),
        a != b ==> r == Err::<(), LaneError>(LaneError::MixViolation { a, b }),
{
    if a.can_mix_with(&b) {
        Ok(())
    } else {
        Err(LaneError::MixViolation { a, b })
    }
}

/// The secret lane holds secret data and nothing else.
pub proof fn law_secret_lane_only_secret(t: Taint)
    ensures
        lane_taints(Lane::PrivateSecret).contains(t) <==> t == Taint::Secret,
{
    if lane_taints(Lane::PrivateSecret).contains(t) {
        let i = choose|i: int| 0 <= i < lane_taints(Lane::PrivateSecret).len() && lane_taints(Lane::PrivateSecret)[i] == t;
        assert(i == 0);
    }
    if t == Taint::Secret {
        assert(lane_taints(Lane::PrivateSecret)[0] == t);
    }
}

/// Secret and page data never land in lanes that may be compressed together.
pub proof fn law_secret_and_page_lanes_never_mix()
    ensures
        lane_for(Taint::Secret) != lane_for(Taint::Page),
{
}

/// The lane chosen for a label admits that label, for every label but `Ai`
/// (whose lane, PublicDynamic, admits only Clean and User).
pub proof fn law_lane_for_admits(t: Taint)
    requires
        t != Taint::Ai,
    ensures
        lane_taints(lane_for(t)).contains(t),
{
    match t {
        Taint::Clean => { assert(lane_taints(lane_for(t))[0] == t); },
        Taint::User => { assert(lane_taints(lane_for(t))[1] == t); },
        Taint::Page => { assert(lane_taints(lane_for(t))[0] == t); },
        Taint::Secret => { assert(lane_taints(lane_for(t))[0] == t); },
        Taint::Ai => {},
    }
}

} // verus!
