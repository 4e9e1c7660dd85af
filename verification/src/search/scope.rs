//! Capability sets and the scope every search runs under.
//!
//! A scope binds a query to one page origin, session and tenant, and carries
//! the capabilities the caller holds. Capabilities compose by intersection
//! only: there is no union.
use vstd::prelude::*;

verus! {

/// What std's `DefaultHasher` gives after hashing the given words in order.
pub uninterp spec fn default_hash(words: Seq<u64>) -> u64;

/// Hashes `u64` words in order with std's `DefaultHasher`, as the derived
/// `Hash` of a struct of `u64` fields does.
///
/// Trusted: creates a hasher with `DefaultHasher::new`, feeds each word
/// through `<u64 as Hash>::hash` and returns `Hasher::finish`. std documents
/// that every hasher made by `new` is the same, so the result depends on the
/// words alone; the contract names it and says nothing more of it.
#[verifier::external_body]
pub(crate) fn hash_words(words: &[u64]) -> (r: u64)
    ensures
        r == default_hash(words@),
{
    let mut h = std::collections::hash_map::DefaultHasher::new();
    for w in words {
        std::hash::Hash::hash(w, &mut h);
    }
    std::hash::Hasher::finish(&h)
}

/// Whether the bits of `have` include every bit of `need`.
pub open spec fn includes_bits(have: u64, need: u64) -> bool {
    have & need == need
}

/// A set of capability bits.
#[derive(Clone, Copy, Debug, Default, PartialEq, Eq, Hash, Structural)]
pub struct CapSet(pub u64);

impl CapSet {
    /// The set with no capability.
    pub fn empty() -> (r: Self)
        ensures
            r.0 == 0,
    {
        CapSet(0)
    }

    /// Whether no capability is in the set.
    pub fn is_empty(&self) -> (r: bool)
        ensures
            r == (self.0 == 0),
    {
        self.0 == 0
    }

    /// Build a CapSet from raw capability bits.
    pub fn from_bits(bits: u64) -> (r: Self)
        ensures
            r.0 == bits,
    {
        CapSet(bits)
    }

    /// Check whether this set includes ALL bits from `required` (AND composition).
    pub fn includes(&self, required: CapSet) -> (r: bool)
        ensures
            r == includes_bits(self.0, required.0),
    {
        (self.0 & required.0) == required.0
    }

    /// Check whether a specific bit index is set.
    pub fn contains(&self, bit: u64) -> (r: bool)
        requires
            bit < 64,
        ensures
            r == (self.0 & (1u64 << bit) != 0),
    {
        (self.0 & (1u64 << bit)) != 0
    }

    /// Intersection (AND), the only composition of capability sets.
    pub fn intersection(&self, other: CapSet) -> (r: Self)
        ensures
            r.0 == self.0 & other.0,
    {
        CapSet(self.0 & other.0)
    }
}

/// The scope a search runs under: who asks, from where, with which
/// capabilities.
#[derive(Clone, Copy, Debug, PartialEq, Eq, Hash, Structural)]
pub struct Scope {
    pub page_origin: u64,
    pub session: u64,
    pub tenant: u64,
    pub capabilities: CapSet,
}

/// The words a scope is hashed from, in field order.
pub open spec fn scope_words(s: Scope) -> Seq<u64> {
    seq![s.page_origin, s.session, s.tenant, s.capabilities.0]
}

/// The digest of a scope.
pub open spec fn scope_digest(s: Scope) -> u64 {
    default_hash(scope_words(s))
}

/// The hash of a scope's words, computed by `hash_words`.
pub fn hash_scope(s: &Scope) -> (r: u64)
    ensures
        r == scope_digest(*s),
{
    let words = vec![s.page_origin, s.session, s.tenant, s.capabilities.0];
    proof {
        assert(words@ =~= scope_words(*s));
    }
    hash_words(words.as_slice())
}

impl Scope {
    /// Scope for tests, built from raw capability bits.
    pub fn for_test(page_origin: u64, session: u64, tenant: u64, cap_bits: u64) -> (r: Self)
        ensures
            r == (Scope { page_origin, session, tenant, capabilities: CapSet(cap_bits) }),
    {
        Scope { page_origin, session, tenant, capabilities: CapSet(cap_bits) }
    }

    /// Create a scope from verified session/auth data.
    pub fn new(page_origin: u64, session: u64, tenant: u64, capabilities: CapSet) -> (r: Self)
        ensures
            r == (Scope { page_origin, session, tenant, capabilities }),
    {
        Scope { page_origin, session, tenant, capabilities }
    }

    /// The crate's own constructor.
    pub(crate) fn construct(page_origin: u64, session: u64, tenant: u64, capabilities: CapSet) -> (r: Self)
        ensures
            r == (Scope { page_origin, session, tenant, capabilities }),
    {
        Scope { page_origin, session, tenant, capabilities }
    }

    pub fn page_origin(&self) -> (r: u64)
        ensures
            r == self.page_origin,
    {
        self.page_origin
    }

    pub fn session(&self) -> (r: u64)
        ensures
            r == self.session,
    {
        self.session
    }

    pub fn tenant(&self) -> (r: u64)
        ensures
            r == self.tenant,
    {
        self.tenant
    }

    pub fn capabilities(&self) -> (r: &CapSet)
        ensures
            *r == self.capabilities,
    {
        &self.capabilities
    }

    /// Whether the scope's capabilities include the required bits (AND
    /// composition).
    pub fn allows(&self, required: CapSet) -> (r: bool)
        ensures
            r == includes_bits(self.capabilities.0, required.0),
    {
        (self.capabilities.0 & required.0) == required.0
    }

    /// A deterministic digest of the scope: its fields hashed in order.
    pub fn digest(&self) -> (r: u64)
        ensures
            r == scope_digest(*self),
    {
        hash_scope(self)
    }
}

/// Composition by intersection never widens: a set composed of two holds a
/// requirement exactly when both of them hold it.
pub proof fn law_intersection_is_and(a: u64, b: u64, need: u64)
    ensures
        includes_bits(a & b, need) <==> (includes_bits(a, need) && includes_bits(b, need)),
{
    assert((a & b) & need == need <==> (a & need == need && b & need == need)) by (bit_vector);
}

/// The intersection of two sets is included in each of them.
pub proof fn law_intersection_within(a: u64, b: u64)
    ensures
        includes_bits(a, a & b),
        includes_bits(b, a & b),
{
    assert(a & (a & b) == a & b && b & (a & b) == a & b) by (bit_vector);
}

/// A single capability is in an intersection exactly when it is in both sets.
pub proof fn law_intersection_contains(a: u64, b: u64, bit: u64)
    requires
        bit < 64,
    ensures
        ((a & b) & (1u64 << bit) != 0) <==> ((a & (1u64 << bit) != 0) && (b & (1u64 << bit) != 0)),
{
    assert(bit < 64 ==> (((a & b) & (1u64 << bit) != 0) <==> ((a & (1u64 << bit) != 0) && (b & (1u64 << bit) != 0)))) by (bit_vector);
}

/// Every set includes the empty requirement, and a requirement is included
/// in itself.
pub proof fn law_includes_reflexive(a: u64)
    ensures
        includes_bits(a, 0),
        includes_bits(a, a),
{
    assert(a & 0 == 0 && a & a == a) by (bit_vector);
}

} // verus!
