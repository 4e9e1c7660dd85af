//! Partition keys. Each (tenant, page origin) pair has its own index
//! partition, and every indexed node is stamped with its scope's hash.
use vstd::prelude::*;
use crate::search::scope::{default_hash, hash_scope, hash_words, scope_digest, Scope};

verus! {

/// The key of the partition a scope's searches run in: the tenant and the
/// page origin, hashed in that order.
pub open spec fn partition_of(s: Scope) -> u64 {
    default_hash(seq![s.tenant, s.page_origin])
}

/// The hash a scope's nodes are stamped with: the whole scope, hashed.
pub fn scope_hash(scope: &Scope) -> (r: u64)
    ensures
        r == scope_digest(*scope),
{
    hash_scope(scope)
}

/// The key of the partition a scope's searches run in.
pub fn partition_key(scope: &Scope) -> (r: u64)
    ensures
        r == partition_of(*scope),
{
    let words = vec![scope.tenant, scope.page_origin];
    proof {
        assert(words@ =~= seq![scope.tenant, scope.page_origin]);
    }
    hash_words(words.as_slice())
}

/// The hash a scope's index filter is built from is the scope's digest.
pub proof fn law_scope_hash_is_digest(s: Scope)
    ensures
        scope_digest(s) == default_hash(seq![s.page_origin, s.session, s.tenant, s.capabilities.0]),
{
}

/// Scopes that differ only in session or capabilities share a partition.
pub proof fn law_partition_ignores_session(a: Scope, b: Scope)
    requires
        a.tenant == b.tenant,
        a.page_origin == b.page_origin,
    ensures
        partition_of(a) == partition_of(b),
{
}

} // verus!
