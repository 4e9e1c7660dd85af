//! The per-scope tantivy partitions: their schema, the queries run against
//! them, and the store that holds one partition per (tenant, page origin).
use vstd::prelude::*;
use std::sync::{Arc, Mutex};
use dashmap::DashMap;
use tantivy::collector::TopDocs;
use tantivy::query::{AllQuery, BooleanQuery, EmptyQuery, Occur as TantivyOccur, PhraseQuery, Query, TermQuery};
use tantivy::schema::{Facet, FacetOptions, Field as IndexField, IndexRecordOption, NumericOptions, Schema, TEXT};
use tantivy::{Index, IndexReader, IndexWriter, ReloadPolicy, TantivyDocument, Term};
use crate::search::error::FailClosed;
use crate::search::journal::NodeDoc;
use crate::search::partition::{partition_key, partition_of};
use crate::search::scope::Scope;

verus! {

/// Field numbers of the partition schema, in the order `index_schema`
/// adds the fields.
pub const TAG_FIELD: u32 = 0;
pub const ROLE_FIELD: u32 = 1;
pub const TEXT_FIELD: u32 = 2;
pub const ARIA_LABEL_FIELD: u32 = 3;
pub const SCOPE_HASH_FIELD: u32 = 4;
pub const NODE_KIND_FIELD: u32 = 5;

/// The heap a partition's writer may use, in bytes.
pub const WRITER_HEAP_BYTES: usize = 50_000_000;

#[verifier::external_type_specification]
#[verifier::external_body]
pub struct ExTantivyDocument(tantivy::TantivyDocument);

/// A tantivy query, boxed.
#[verifier::external_body]
pub struct TantivyQuery {
    inner: Box<dyn Query>,
}

/// What a query is built from: the tantivy constructors and their
/// arguments, by field number.
pub enum QueryDesc {
    /// A text term (`TermQuery` with frequencies).
    Term(u32, Seq<char>),
    /// A phrase of text terms (`PhraseQuery`).
    Phrase(u32, Seq<Seq<char>>),
    /// An exact `u64` value (`TermQuery`, basic record).
    U64Term(u32, u64),
    /// Both must match (`BooleanQuery`, two `Must` clauses).
    Must(Box<QueryDesc>, Box<QueryDesc>),
    /// Either may match (`BooleanQuery`, two `Should` clauses).
    Should(Box<QueryDesc>, Box<QueryDesc>),
    /// Every document (`AllQuery`).
    All,
    /// No document (`EmptyQuery`).
    Nothing,
}

/// A query together with what it is built from.
pub struct IndexQuery {
    query: TantivyQuery,
    desc: Ghost<QueryDesc>,
}

impl IndexQuery {
    /// What the query is built from.
    pub closed spec fn desc(&self) -> QueryDesc {
        self.desc@
    }
}

/// A `TermQuery` on a text term.
///
/// Trusted: `TermQuery::new(Term::from_field_text(field, text), WithFreqs)`.
#[verifier::external_body]
fn text_term_query(field: u32, text: &str) -> (r: TantivyQuery) {
    let term = Term::from_field_text(IndexField::from_field_id(field), text);
    TantivyQuery { inner: Box::new(TermQuery::new(term, IndexRecordOption::WithFreqs)) }
}

/// A `PhraseQuery` on text terms of one field.
///
/// Trusted: `PhraseQuery::new` over `Term::from_field_text(field, t)` for
/// each term in order; it panics on fewer than two terms, so they are
/// required.
#[verifier::external_body]
fn phrase_query(field: u32, terms: &[String]) -> (r: TantivyQuery)
    requires
        terms@.len() > 1,
{
    let f = IndexField::from_field_id(field);
    TantivyQuery { inner: Box::new(PhraseQuery::new(terms.iter().map(|t| Term::from_field_text(f, t)).collect())) }
}

/// A `TermQuery` on an exact `u64` value.
///
/// Trusted: `TermQuery::new(Term::from_field_u64(field, value), Basic)`.
#[verifier::external_body]
fn u64_term_query(field: u32, value: u64) -> (r: TantivyQuery) {
    let term = Term::from_field_u64(IndexField::from_field_id(field), value);
    TantivyQuery { inner: Box::new(TermQuery::new(term, IndexRecordOption::Basic)) }
}

/// Trusted: `AllQuery`.
#[verifier::external_body]
fn all_query() -> (r: TantivyQuery) {
    TantivyQuery { inner: Box::new(AllQuery) }
}

/// Trusted: `EmptyQuery`.
#[verifier::external_body]
fn empty_query() -> (r: TantivyQuery) {
    TantivyQuery { inner: Box::new(EmptyQuery) }
}

/// Trusted: `BooleanQuery::new` with `(Must, a)` and `(Must, b)`.
#[verifier::external_body]
fn must_and(a: TantivyQuery, b: TantivyQuery) -> (r: TantivyQuery) {
    TantivyQuery { inner: Box::new(BooleanQuery::new(vec![(TantivyOccur::Must, a.inner), (TantivyOccur::Must, b.inner)])) }
}

/// Trusted: `BooleanQuery::new` with `(Should, a)` and `(Should, b)`.
#[verifier::external_body]
fn should_or(a: TantivyQuery, b: TantivyQuery) -> (r: TantivyQuery) {
    TantivyQuery {
        inner: Box::new(BooleanQuery::new(vec![(TantivyOccur::Should, a.inner), (TantivyOccur::Should, b.inner)])),
    }
}

impl IndexQuery {
    /// A query on a text term.
    pub fn text_term(field: u32, text: &str) -> (r: IndexQuery)
        ensures
            r.desc() == QueryDesc::Term(field, text@),
    {
        IndexQuery { query: text_term_query(field, text), desc: Ghost(QueryDesc::Term(field, text@)) }
    }

    /// A query on a phrase of at least two text terms.
    pub fn phrase(field: u32, terms: &[String]) -> (r: IndexQuery)
        requires
            terms@.len() > 1,
        ensures
            r.desc() == QueryDesc::Phrase(field, crate::text::strings_view(terms@)),
    {
        IndexQuery {
            query: phrase_query(field, terms),
            desc: Ghost(QueryDesc::Phrase(field, crate::text::strings_view(terms@))),
        }
    }

    /// A query on an exact `u64` value.
    pub fn u64_term(field: u32, value: u64) -> (r: IndexQuery)
        ensures
            r.desc() == QueryDesc::U64Term(field, value),
    {
        IndexQuery { query: u64_term_query(field, value), desc: Ghost(QueryDesc::U64Term(field, value)) }
    }

    /// Every document.
    pub fn all() -> (r: IndexQuery)
        ensures
            r.desc() == QueryDesc::All,
    {
        IndexQuery { query: all_query(), desc: Ghost(QueryDesc::All) }
    }

    /// No document.
    pub fn nothing() -> (r: IndexQuery)
        ensures
            r.desc() == QueryDesc::Nothing,
    {
        IndexQuery { query: empty_query(), desc: Ghost(QueryDesc::Nothing) }
    }

    /// Both queries must match.
    pub fn and(a: IndexQuery, b: IndexQuery) -> (r: IndexQuery)
        ensures
            r.desc() == QueryDesc::Must(Box::new(a.desc()), Box::new(b.desc())),
    {
        let ghost d = QueryDesc::Must(Box::new(a.desc()), Box::new(b.desc()));
        IndexQuery { query: must_and(a.query, b.query), desc: Ghost(d) }
    }

    /// Either query may match.
    pub fn or(a: IndexQuery, b: IndexQuery) -> (r: IndexQuery)
        ensures
            r.desc() == QueryDesc::Should(Box::new(a.desc()), Box::new(b.desc())),
    {
        let ghost d = QueryDesc::Should(Box::new(a.desc()), Box::new(b.desc()));
        IndexQuery { query: should_or(a.query, b.query), desc: Ghost(d) }
    }
}

/// The schema of every partition: `tag`, `role`, `text` and `aria_label`
/// text fields, an indexed fast `scope_hash` number and a `node_kind`
/// facet.
///
/// Trusted: `Schema::builder`, the six `add_*_field` calls in this order
/// (tantivy numbers fields in the order they are added, so they get the
/// numbers of the `*_FIELD` constants), and `build`.
#[verifier::external_body]
fn index_schema() -> (r: Schema) {
    let mut b = Schema::builder();
    b.add_text_field("tag", TEXT);
    b.add_text_field("role", TEXT);
    b.add_text_field("text", TEXT);
    b.add_text_field("aria_label", TEXT);
    b.add_u64_field("scope_hash", NumericOptions::default().set_indexed().set_fast());
    b.add_facet_field("node_kind", FacetOptions::default());
    b.build()
}

#[verifier::external_type_specification]
#[verifier::external_body]
pub struct ExSchema(tantivy::schema::Schema);

/// One in-memory index partition: its writer and its reader.
#[verifier::external_body]
pub struct SearchIndex {
    writer: Mutex<IndexWriter<TantivyDocument>>,
    reader: IndexReader,
}

/// A fresh in-memory index with the partition schema.
///
/// Trusted: `Index::create_in_ram`, `writer_with_num_threads(1, heap)` and
/// a reader with manual reloading; a failure of either is `IndexDown`.
#[verifier::external_body]
fn create_in_ram(schema: Schema) -> (r: Result<SearchIndex, FailClosed>)
    ensures
        r matches Err(e) ==> e == FailClosed::IndexDown,
{
    let index = Index::create_in_ram(schema);
    let writer = index.writer_with_num_threads(1, WRITER_HEAP_BYTES).map_err(|_| FailClosed::IndexDown)?;
    let reader = index.reader_builder().reload_policy(ReloadPolicy::Manual).try_into().map_err(|_| FailClosed::IndexDown)?;
    Ok(SearchIndex { writer: Mutex::new(writer), reader })
}

/// The tantivy document of a node; a node kind that is not a facet path
/// is indexed as the root facet.
///
/// Trusted: `Facet::from_text` (its error gives `Facet::root`), then
/// `add_text`, `add_u64` and `add_facet` on a default document, one per
/// field.
#[verifier::external_body]
fn node_document(node: &NodeDoc) -> (r: TantivyDocument) {
    let kind = Facet::from_text(&node.node_kind).unwrap_or_else(|_| Facet::root());
    let f = IndexField::from_field_id;
    let mut d = TantivyDocument::default();
    d.add_text(f(TAG_FIELD), &node.tag);
    d.add_text(f(ROLE_FIELD), &node.role);
    d.add_text(f(TEXT_FIELD), &node.text);
    d.add_text(f(ARIA_LABEL_FIELD), &node.aria_label);
    d.add_u64(f(SCOPE_HASH_FIELD), node.scope_hash);
    d.add_facet(f(NODE_KIND_FIELD), kind);
    d
}

impl SearchIndex {
    /// A fresh, empty partition.
    pub fn create_partition(scope: &Scope) -> (r: Result<SearchIndex, FailClosed>)
        ensures
            r matches Err(e) ==> e == FailClosed::IndexDown,
    {
        let _ = scope;
        create_in_ram(index_schema())
    }

    /// Queue a document for indexing.
    ///
    /// Trusted: locks the writer and calls `IndexWriter::add_document`; a
    /// poisoned lock or a failure is `IndexDown`. The result is the stamp
    /// tantivy gives the operation.
    #[verifier::external_body]
    fn add_document(&self, d: TantivyDocument) -> (r: Result<u64, FailClosed>)
        ensures
            r matches Err(e) ==> e == FailClosed::IndexDown,
    {
        let writer = self.writer.lock().map_err(|_| FailClosed::IndexDown)?;
        writer.add_document(d).map_err(|_| FailClosed::IndexDown)
    }

    /// Queue a node for indexing.
    pub fn add_node(&self, node: &NodeDoc) -> (r: Result<u64, FailClosed>)
        ensures
            r matches Err(e) ==> e == FailClosed::IndexDown,
    {
        self.add_document(node_document(node))
    }

    /// Queue the deletion of every node stamped with a scope hash.
    ///
    /// Trusted: locks the writer and calls `IndexWriter::delete_term` on the
    /// `scope_hash` term; a poisoned lock is `IndexDown`.
    #[verifier::external_body]
    pub fn delete_by_scope(&self, scope_hash: u64) -> (r: Result<u64, FailClosed>)
        ensures
            r matches Err(e) ==> e == FailClosed::IndexDown,
    {
        let term = Term::from_field_u64(IndexField::from_field_id(SCOPE_HASH_FIELD), scope_hash);
        let writer = self.writer.lock().map_err(|_| FailClosed::IndexDown)?;
        Ok(writer.delete_term(term))
    }

    /// Commit the queued operations and make them visible to searches.
    ///
    /// Trusted: locks the writer, calls `IndexWriter::commit`, then
    /// `IndexReader::reload`; a poisoned lock or a failure is `IndexDown`.
    #[verifier::external_body]
    pub fn commit(&self) -> (r: Result<(), FailClosed>)
        ensures
            r matches Err(e) ==> e == FailClosed::IndexDown,
    {
        let mut writer = self.writer.lock().map_err(|_| FailClosed::IndexDown)?;
        writer.commit().map_err(|_| FailClosed::IndexDown)?;
        drop(writer);
        self.reader.reload().map_err(|_| FailClosed::IndexDown)
    }

    /// The ids of the best-scoring documents that match a query, at most
    /// `limit` of them.
    ///
    /// Trusted: `Searcher::search` with `TopDocs::with_limit(limit)` ordered
    /// by score, which returns at most `limit` hits and panics on a zero
    /// limit; a failure is `IndexDown`. Each hit gives its `doc_id`.
    #[verifier::external_body]
    pub fn search(&self, query: &IndexQuery, limit: usize) -> (r: Result<Vec<u64>, FailClosed>)
        requires
            limit > 0,
        ensures
            r matches Ok(ids) ==> ids@.len() <= limit,
            r matches Err(e) ==> e == FailClosed::IndexDown,
    {
        let hits = self.reader.searcher().search(query.query.inner.as_ref(), &TopDocs::with_limit(limit).order_by_score())
            .map_err(|_| FailClosed::IndexDown)?;
        Ok(hits.into_iter().map(|(_score, addr)| u64::from(addr.doc_id)).collect())
    }
}

#[verifier::external_type_specification]
#[verifier::external_body]
#[verifier::reject_recursive_types(K)]
#[verifier::reject_recursive_types(V)]
#[verifier::reject_recursive_types(S)]
pub struct ExDashMap<K, V, S>(DashMap<K, V, S>);

/// The keys of the partitions a map holds.
pub uninterp spec fn partition_keys(m: DashMap<u64, Arc<SearchIndex>>) -> Set<u64>;

/// A map with no partition.
///
/// Trusted: `DashMap::new`, which holds no key.
#[verifier::external_body]
fn partitions_new() -> (r: DashMap<u64, Arc<SearchIndex>>)
    ensures
        partition_keys(r) == Set::<u64>::empty(),
{
    DashMap::new()
}

/// The number of partitions.
///
/// Trusted: `DashMap::len`, the number of keys the map holds.
#[verifier::external_body]
fn partitions_len(m: &DashMap<u64, Arc<SearchIndex>>) -> (r: usize)
    ensures
        r == partition_keys(*m).len(),
{
    m.len()
}

/// The partition under a key, if there is one.
///
/// Trusted: `DashMap::get`, cloning the `Arc`; it finds something exactly
/// when the key is held.
#[verifier::external_body]
fn partitions_get(m: &DashMap<u64, Arc<SearchIndex>>, key: u64) -> (r: Option<Arc<SearchIndex>>)
    ensures
        r is Some <==> partition_keys(*m).contains(key),
{
    m.get(&key).map(|p| p.clone())
}

/// The partition under a key: the one already there, or else `index`,
/// inserted.
///
/// Trusted: `DashMap::entry(key).or_insert(Arc::new(index))`, cloning the
/// `Arc`; afterwards the key is held and no other key changes.
#[verifier::external_body]
fn partitions_insert(m: &mut DashMap<u64, Arc<SearchIndex>>, key: u64, index: SearchIndex) -> (r: Arc<SearchIndex>)
    ensures
        partition_keys(*final(m)) == partition_keys(*old(m)).insert(key),
{
    m.entry(key).or_insert(Arc::new(index)).clone()
}

/// The partitions, one per (tenant, page origin).
pub struct PartitionStore {
    partitions: DashMap<u64, Arc<SearchIndex>>,
    runs: Ghost<Seq<(u64, QueryDesc, usize)>>,
}

impl PartitionStore {
    /// The partition keys the store holds.
    pub closed spec fn keys(&self) -> Set<u64> {
        partition_keys(self.partitions)
    }

    /// Every query run so far, in order: the partition key it ran in, what
    /// the query is built from, and the most hits asked for.
    pub closed spec fn runs(&self) -> Seq<(u64, QueryDesc, usize)> {
        self.runs@
    }

    /// A store with no partition.
    pub fn new() -> (r: Self)
        ensures
            r.keys() == Set::<u64>::empty(),
            r.runs() == Seq::<(u64, QueryDesc, usize)>::empty(),
    {
        PartitionStore { partitions: partitions_new(), runs: Ghost(Seq::empty()) }
    }

    /// The number of partitions.
    pub fn partition_count(&self) -> (r: usize)
        ensures
            r == self.keys().len(),
    {
        partitions_len(&self.partitions)
    }

    /// The partition of a scope, created empty on first use: afterwards the
    /// scope's partition key is held. Only creating a fresh partition can
    /// fail, with `IndexDown`, and then nothing changes.
    pub fn get_or_create(&mut self, scope: &Scope) -> (r: Result<Arc<SearchIndex>, FailClosed>)
        ensures
            old(self).keys().contains(partition_of(*scope)) ==> r is Ok,
            r is Ok ==> final(self).keys() == old(self).keys().insert(partition_of(*scope)),
            r matches Err(e) ==> e == FailClosed::IndexDown && final(self).keys() == old(self).keys(),
            final(self).runs() == old(self).runs(),
    {
        let key = partition_key(scope);
        match partitions_get(&self.partitions, key) {
            Some(p) => {
                proof {
                    assert(old(self).keys().insert(key) =~= old(self).keys());
                }
                Ok(p)
            },
            None => {
                let index = match SearchIndex::create_partition(scope) {
                    Ok(i) => i,
                    Err(e) => return Err(e),
                };
                Ok(partitions_insert(&mut self.partitions, key, index))
            },
        }
    }

    /// Run a query in the partition of a scope: the ids of at most `limit`
    /// matching documents, or `IndexDown`. The run is recorded, in the
    /// scope's partition, unless no partition could be had for the scope,
    /// which happens only where it had none.
    pub fn search(&mut self, query: &IndexQuery, scope: &Scope, limit: usize) -> (r: Result<Vec<u64>, FailClosed>)
        requires
            limit > 0,
        ensures
            r matches Ok(ids) ==> ids@.len() <= limit,
            r matches Err(e) ==> e == FailClosed::IndexDown,
            ran_in(old(self).runs(), final(self).runs(), old(self).keys(), final(self).keys(), partition_of(*scope),
                query.desc(), limit),
            r is Ok ==> final(self).runs() == old(self).runs().push((partition_of(*scope), query.desc(), limit)),
    {
        let index = self.get_or_create(scope)?;
        self.runs = Ghost(self.runs@.push((partition_of(*scope), query.desc(), limit)));
        index.search(query, limit)
    }
}

/// What running a query in partition `key` does to a store: the run is
/// recorded and the partition held; or, where the store had no partition
/// under `key` and none could be made, nothing changes.
pub open spec fn ran_in(
    runs: Seq<(u64, QueryDesc, usize)>,
    runs_after: Seq<(u64, QueryDesc, usize)>,
    keys: Set<u64>,
    keys_after: Set<u64>,
    key: u64,
    q: QueryDesc,
    limit: usize,
) -> bool {
    ||| runs_after == runs.push((key, q, limit)) && keys_after == keys.insert(key)
    ||| runs_after == runs && keys_after == keys && !keys.contains(key)
}

} // verus!
