//! The search journal: every index operation, stamped in order, so that a
//! fresh partition can be rebuilt by replaying it.
use vstd::prelude::*;
use crate::search::error::FailClosed;
use crate::search::index::SearchIndex;

verus! {

/// A node as it is indexed.
#[derive(Clone, Debug)]
pub struct NodeDoc {
    pub tag: String,
    pub role: String,
    pub text: String,
    pub aria_label: String,
    pub scope_hash: u64,
    pub node_kind: String,
}

/// One journaled index operation.
#[derive(Clone, Debug)]
pub enum JournalOp {
    /// Index a node.
    Add(NodeDoc),
    /// Delete every node stamped with a scope hash.
    Delete(u64),
}

/// The journal of index operations, each with its stamp.
#[derive(Clone, Debug, Default)]
pub struct SearchJournal {
    entries: Vec<(u64, JournalOp)>,
}

impl View for SearchJournal {
    type V = Seq<(u64, JournalOp)>;

    closed spec fn view(&self) -> Seq<(u64, JournalOp)> {
        self.entries@
    }
}

/// Entry `i` of a journal is stamped `i`.
pub open spec fn stamped_in_order(s: Seq<(u64, JournalOp)>) -> bool {
    forall|i: int| 0 <= i < s.len() ==> #[trigger] s[i].0 == i
}

impl SearchJournal {
    /// An empty journal.
    pub fn new() -> (r: Self)
        ensures
            r@ == Seq::<(u64, JournalOp)>::empty(),
    {
        SearchJournal { entries: Vec::new() }
    }

    /// Record an operation under the next stamp, and return that stamp.
    pub fn record(&mut self, op: JournalOp) -> (r: u64)
        requires
            old(self)@.len() < u64::MAX,
        ensures
            r == old(self)@.len(),
            final(self)@ == old(self)@.push((r, op)),
            stamped_in_order(old(self)@) ==> stamped_in_order(final(self)@),
    {
        let stamp = self.next_opstamp();
        self.entries.push((stamp, op));
        stamp
    }

    /// The stamp the next operation gets: the number recorded so far.
    pub fn next_opstamp(&self) -> (r: u64)
        requires
            self@.len() <= u64::MAX,
        ensures
            r == self@.len(),
    {
        self.entries.len() as u64
    }

    pub fn len(&self) -> (r: usize)
        ensures
            r == self@.len(),
    {
        self.entries.len()
    }

    pub fn is_empty(&self) -> (r: bool)
        ensures
            r == (self@.len() == 0),
    {
        self.entries.len() == 0
    }

    /// Rebuild a partition from the journal: every operation in order, then
    /// a commit. The first failure stops the replay.
    pub fn replay(&self, index: &SearchIndex) -> (r: Result<(), FailClosed>)
        ensures
            r matches Err(e) ==> e == FailClosed::IndexDown,
    {
        let mut i: usize = 0;
        while i < self.entries.len()
            invariant
                i <= self.entries.len(),
            decreases self.entries.len() - i,
        {
            match &self.entries[i].1 {
                JournalOp::Add(d) => {
                    index.add_node(d)?;
                },
                JournalOp::Delete(h) => {
                    index.delete_by_scope(*h)?;
                },
            }
            i = i + 1;
        }
        index.commit()
    }

    /// The recorded operations with their stamps, in order.
    pub fn entries(&self) -> (r: &[(u64, JournalOp)])
        ensures
            r@ == self@,
    {
        self.entries.as_slice()
    }
}

/// A journal built only by `record` from an empty one is stamped in order.
pub proof fn law_new_journal_is_stamped_in_order()
    ensures
        stamped_in_order(Seq::<(u64, JournalOp)>::empty()),
{
}

} // verus!
