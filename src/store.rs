use std::collections::BTreeMap;
use vstd::prelude::*;
use crate::validator::{AcceptedBatch, batch_wf};

verus! {

broadcast use vstd::std_specs::btree::group_btree_axioms;

/// Accepted header batches waiting for the importer, keyed by the number of
/// their last header. A batch stored under a key already present replaces
/// the one there.
pub struct PendingStore {
    batches: BTreeMap<u64, AcceptedBatch>,
}

impl View for PendingStore {
    type V = Map<u64, AcceptedBatch>;

    closed spec fn view(&self) -> Map<u64, AcceptedBatch> {
        self.batches@
    }
}

impl PendingStore {
    /// Each batch is well formed and stored under its highest number.
    pub open spec fn wf(&self) -> bool {
        forall|k: u64| #[trigger] self@.contains_key(k) ==> self@[k].highest_number == k && batch_wf(self@[k])
    }

    pub fn new() -> (r: PendingStore)
        ensures
            r.wf(),
            r@ == Map::<u64, AcceptedBatch>::empty(),
    {
        PendingStore { batches: BTreeMap::new() }
    }

    /// Number of batches held.
    pub fn len(&self) -> (r: usize)
        ensures
            r == self@.len(),
    {
        self.batches.len()
    }

    /// Stores `batch` when the writer got hold of the store
    /// (`write_acquired`); otherwise the batch is dropped and the store is
    /// left as it was.
    pub fn offer(&mut self, batch: AcceptedBatch, write_acquired: bool)
        requires
            old(self).wf(),
            batch_wf(batch),
        ensures
            final(self).wf(),
            write_acquired ==> final(self)@ == old(self)@.insert(batch.highest_number, batch),
            !write_acquired ==> final(self)@ == old(self)@,
    {
        if write_acquired {
            let key = batch.highest_number;
            self.batches.insert(key, batch);
            assert forall|k: u64| #[trigger] self@.contains_key(k) implies self@[k].highest_number == k
                && batch_wf(self@[k]) by {
                if k != key {
                    assert(old(self)@.contains_key(k));
                }
            }
        }
    }

    /// Removes and returns the batch stored under `number`, if any.
    pub fn take(&mut self, number: u64) -> (r: Option<AcceptedBatch>)
        requires
            old(self).wf(),
        ensures
            final(self).wf(),
            final(self)@ == old(self)@.remove(number),
            r is Some <==> old(self)@.contains_key(number),
            r matches Some(b) ==> b == old(self)@[number],
    {
        let r = self.batches.remove(&number);
        assert forall|k: u64| #[trigger] self@.contains_key(k) implies self@[k].highest_number == k
            && batch_wf(self@[k]) by {
            assert(old(self)@.contains_key(k));
        }
        r
    }
}

} // verus!
