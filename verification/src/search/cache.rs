//! Scope-bound result cache.
//!
//! Cache keys are derived with the scope folded in, and every cached value
//! carries its scope, which is checked again on read: a value cached under one
//! scope is never handed to another.
use vstd::prelude::*;
use crate::digest::{blake3_digest, blake3_hash, extend_bytes, le_bytes, u64_le_bytes};
use crate::search::candidate::{candidates_view, copy_candidates, Candidate, CandidateView};
use crate::search::scope::{hash_scope, scope_digest, Scope};

verus! {

/// The domain string the cache key derivation starts with.
pub const CACHE_DOMAIN: &'static str = "be-search-scopecache-v1";

/// The bytes a cache key is the digest of: the domain, the scope's digest in
/// little-endian, and the plan fingerprint.
pub open spec fn key_input(scope: Scope, fingerprint: Seq<u8>) -> Seq<u8> {
    vstd::utf8::encode_utf8(CACHE_DOMAIN@) + le_bytes(scope_digest(scope)) + fingerprint
}

/// Opaque cache key: a digest of the scope and the plan.
#[derive(Debug, Clone, Copy, PartialEq, Eq, Hash)]
pub struct CacheKey(pub [u8; 32]);

impl CacheKey {
    /// Derive a key from a scope and a canonical plan fingerprint.
    pub fn derive(scope: &Scope, plan_fingerprint: &[u8]) -> (r: Self)
        ensures
            r.0@ == blake3_digest(key_input(*scope, plan_fingerprint@)),
    {
        let mut buf: Vec<u8> = Vec::new();
        extend_bytes(&mut buf, CACHE_DOMAIN.as_bytes());
        let h = hash_scope(scope);
        let hb = u64_le_bytes(h);
        extend_bytes(&mut buf, hb.as_slice());
        extend_bytes(&mut buf, plan_fingerprint);
        proof {
            assert(buf@ =~= key_input(*scope, plan_fingerprint@));
        }
        CacheKey(blake3_hash(buf.as_slice()))
    }
}

/// A cached result with the scope it was computed under.
#[derive(Debug)]
struct CacheEntry {
    key: CacheKey,
    scope: Scope,
    results: Vec<Candidate>,
}

/// Whether an entry is stored under the given key.
fn same_key(e: &CacheEntry, b: &CacheKey) -> (r: bool)
    ensures
        r == (e.key.0@ == b.0@),
{
    let a = &e.key;
    let mut i: usize = 0;
    while i < 32
        invariant
            i <= 32,
            *a == e.key,
            a.0@.len() == 32,
            b.0@.len() == 32,
            forall|j: int| 0 <= j < i ==> a.0@[j] == b.0@[j],
        decreases 32 - i,
    {
        if a.0[i] != b.0[i] {
            proof {
                assert(a.0@[i as int] != b.0@[i as int]);
            }
            return false;
        }
        i = i + 1;
    }
    proof {
        assert(a.0@ =~= b.0@);
    }
    true
}

/// The content of a cached result.
pub struct CachedView {
    pub scope: Scope,
    pub results: Seq<CandidateView>,
}

/// The map from key bytes to cached results that a list of entries holds.
spec fn entries_map(s: Seq<CacheEntry>) -> Map<Seq<u8>, CachedView>
    decreases s.len(),
{
    if s.len() == 0 {
        Map::empty()
    } else {
        entries_map(s.drop_last()).insert(
            s.last().key.0@,
            CachedView { scope: s.last().scope, results: candidates_view(s.last().results@) },
        )
    }
}

/// No key occurs twice.
spec fn keys_distinct(s: Seq<CacheEntry>) -> bool {
    forall|i: int, j: int| 0 <= i < j < s.len() ==> s[i].key.0@ != s[j].key.0@
}

/// A key no entry holds is not in the map.
proof fn lemma_map_absent(s: Seq<CacheEntry>, k: Seq<u8>)
    requires
        forall|i: int| 0 <= i < s.len() ==> s[i].key.0@ != k,
    ensures
        !entries_map(s).contains_key(k),
    decreases s.len(),
{
    if s.len() > 0 {
        lemma_map_absent(s.drop_last(), k);
    }
}

/// The map holds each entry under its key.
proof fn lemma_map_get(s: Seq<CacheEntry>, i: int)
    requires
        keys_distinct(s),
        0 <= i < s.len(),
    ensures
        entries_map(s).contains_key(s[i].key.0@),
        entries_map(s)[s[i].key.0@] == (CachedView { scope: s[i].scope, results: candidates_view(s[i].results@) }),
    decreases s.len(),
{
    if i < s.len() - 1 {
        lemma_map_get(s.drop_last(), i);
    }
}

/// Removing an entry removes its key from the map.
proof fn lemma_map_remove(s: Seq<CacheEntry>, i: int)
    requires
        keys_distinct(s),
        0 <= i < s.len(),
    ensures
        entries_map(s.remove(i)) == entries_map(s).remove(s[i].key.0@),
    decreases s.len(),
{
    let k = s[i].key.0@;
    let d = s.drop_last();
    if i == s.len() - 1 {
        assert(s.remove(i) =~= d);
        lemma_map_absent(d, k);
        assert(entries_map(d).remove(k) =~= entries_map(d));
        assert(entries_map(s).remove(k) =~= entries_map(d).remove(k));
    } else {
        lemma_map_remove(d, i);
        assert(s.remove(i) =~= d.remove(i).push(s.last()));
        assert(s.remove(i).drop_last() =~= d.remove(i));
        assert(s[i].key.0@ != s.last().key.0@);
        assert(entries_map(s.remove(i)) =~= entries_map(s).remove(k));
    }
}

/// The map has as many keys as there are entries.
proof fn lemma_map_len(s: Seq<CacheEntry>)
    requires
        keys_distinct(s),
    ensures
        entries_map(s).dom().finite(),
        entries_map(s).dom().len() == s.len(),
    decreases s.len(),
{
    if s.len() > 0 {
        let d = s.drop_last();
        lemma_map_len(d);
        lemma_map_absent(d, s.last().key.0@);
    }
}

/// Scope-bound result cache. Insert stores the scope; get checks it.
#[derive(Debug, Default)]
pub struct ScopeCache {
    entries: Vec<CacheEntry>,
}

impl View for ScopeCache {
    type V = Map<Seq<u8>, CachedView>;

    closed spec fn view(&self) -> Map<Seq<u8>, CachedView> {
        entries_map(self.entries@)
    }
}

impl ScopeCache {
    #[verifier::type_invariant]
    spec fn distinct(&self) -> bool {
        keys_distinct(self.entries@)
    }

    /// An empty cache.
    pub fn new() -> (r: Self)
        ensures
            r@ == Map::<Seq<u8>, CachedView>::empty(),
    {
        ScopeCache { entries: Vec::new() }
    }

    /// Read with the scope checked again: a hit under another scope is a
    /// miss, never a leak.
    pub fn get(&self, key: &CacheKey, scope: &Scope) -> (r: Option<Vec<Candidate>>)
        ensures
            match r {
                Some(v) => self@.contains_key(key.0@) && self@[key.0@].scope == *scope
                    && candidates_view(v@) == self@[key.0@].results,
                None => !self@.contains_key(key.0@) || self@[key.0@].scope != *scope,
            },
    {
        proof {
            use_type_invariant(self);
        }
        let mut i: usize = 0;
        while i < self.entries.len()
            invariant
                i <= self.entries.len(),
                keys_distinct(self.entries@),
                forall|j: int| 0 <= j < i ==> self.entries@[j].key.0@ != key.0@,
            decreases self.entries.len() - i,
        {
            if same_key(&self.entries[i], key) {
                proof {
                    lemma_map_get(self.entries@, i as int);
                }
                if self.entries[i].scope != *scope {
                    return None;
                }
                return Some(copy_candidates(&self.entries[i].results));
            }
            i = i + 1;
        }
        proof {
            lemma_map_absent(self.entries@, key.0@);
        }
        None
    }

    /// Removes the entry under `key`, if any.
    fn remove_key(entries: &mut Vec<CacheEntry>, key: &CacheKey)
        requires
            keys_distinct(old(entries)@),
        ensures
            keys_distinct(final(entries)@),
            entries_map(final(entries)@) == entries_map(old(entries)@).remove(key.0@),
            forall|i: int| 0 <= i < final(entries)@.len() ==> final(entries)@[i].key.0@ != key.0@,
    {
        let mut i: usize = 0;
        while i < entries.len()
            invariant
                i <= entries.len(),
                entries@ == old(entries)@,
                keys_distinct(old(entries)@),
                forall|j: int| 0 <= j < i ==> entries@[j].key.0@ != key.0@,
            decreases entries.len() - i,
        {
            if same_key(&entries[i], key) {
                let ghost before = entries@;
                let _ = entries.remove(i);
                proof {
                    lemma_map_remove(before, i as int);
                    assert forall|a: int, b: int| 0 <= a < b < entries@.len() implies entries@[a].key.0@ != entries@[b].key.0@ by {
                        if a < i {
                            if b < i {
                            } else {
                                assert(entries@[b] == before[b + 1]);
                            }
                        } else {
                            assert(entries@[a] == before[a + 1]);
                            assert(entries@[b] == before[b + 1]);
                        }
                    }
                    assert forall|j: int| 0 <= j < entries@.len() implies entries@[j].key.0@ != key.0@ by {
                        if j >= i {
                            assert(entries@[j] == before[j + 1]);
                        }
                    }
                }
                return;
            }
            i = i + 1;
        }
        proof {
            lemma_map_absent(entries@, key.0@);
            assert(entries_map(entries@).remove(key.0@) =~= entries_map(entries@));
        }
    }

    /// Store results under `key`, with the scope they were computed under.
    pub fn insert(&mut self, key: CacheKey, scope: &Scope, results: Vec<Candidate>)
        ensures
            final(self)@ == old(self)@.insert(key.0@, CachedView { scope: *scope, results: candidates_view(results@) }),
            old(self)@.dom().finite(),
            final(self)@.dom().finite(),
    {
        proof {
            use_type_invariant(&*self);
            lemma_map_len(self.entries@);
        }
        let mut kept: Vec<CacheEntry> = Vec::new();
        std::mem::swap(&mut kept, &mut self.entries);
        Self::remove_key(&mut kept, &key);
        let ghost before = kept@;
        kept.push(CacheEntry { key, scope: *scope, results });
        proof {
            assert(kept@.drop_last() =~= before);
            assert forall|a: int, b: int| 0 <= a < b < kept@.len() implies kept@[a].key.0@ != kept@[b].key.0@ by {
                if b == kept@.len() - 1 {
                    assert(before[a].key.0@ != key.0@);
                }
            }
            assert(entries_map(kept@) =~= old(self)@.insert(key.0@, CachedView { scope: *scope, results: candidates_view(results@) }));
        }
        self.entries = kept;
    }

    /// Drop the entry under `key`, if any.
    pub fn invalidate(&mut self, key: &CacheKey)
        ensures
            final(self)@ == old(self)@.remove(key.0@),
            old(self)@.dom().finite(),
            final(self)@.dom().finite(),
    {
        proof {
            use_type_invariant(&*self);
            lemma_map_len(self.entries@);
        }
        let mut kept: Vec<CacheEntry> = Vec::new();
        std::mem::swap(&mut kept, &mut self.entries);
        Self::remove_key(&mut kept, key);
        self.entries = kept;
    }

    /// The number of cached results.
    pub fn len(&self) -> (r: usize)
        ensures
            r == self@.dom().len(),
            self@.dom().finite(),
    {
        proof {
            use_type_invariant(self);
            lemma_map_len(self.entries@);
        }
        self.entries.len()
    }

    /// Whether nothing is cached.
    pub fn is_empty(&self) -> (r: bool)
        ensures
            r == (self@.dom().len() == 0),
    {
        proof {
            use_type_invariant(self);
            lemma_map_len(self.entries@);
        }
        self.entries.len() == 0
    }
}

/// A value read back under the scope it was stored with is what was stored.
pub proof fn law_cache_read_after_write(
    m: Map<Seq<u8>, CachedView>,
    k: Seq<u8>,
    scope: Scope,
    results: Seq<CandidateView>,
)
    ensures
        m.insert(k, CachedView { scope, results }).contains_key(k),
        m.insert(k, CachedView { scope, results })[k].scope == scope,
        m.insert(k, CachedView { scope, results })[k].results == results,
{
}

} // verus!
