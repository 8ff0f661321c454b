//! The billed-set store: which entry ids have already been invoiced.
//!
//! The durable copy lives with the caller. This type is the run's view of it:
//! it answers whether an entry was billed, and it takes a confirmed batch as
//! a whole or not at all.

use vstd::prelude::*;
use std::collections::HashMap;

verus! {

broadcast use vstd::std_specs::hash::group_hash_axioms;

/// How the durable write of a batch ended.
#[derive(Clone, Copy, Debug, PartialEq, Eq, Structural)]
pub enum WriteOutcome {
    /// Every record of the batch is durable.
    Committed,
    /// The transaction was interrupted; none of its records is durable.
    Interrupted,
}

/// The flags of `flags` after every id of `ids` was marked billed.
pub open spec fn marked(flags: Map<i64, bool>, ids: Seq<i64>) -> Map<i64, bool> {
    Map::new(
        |id: i64| flags.contains_key(id) || ids.contains(id),
        |id: i64|
            if ids.contains(id) {
                true
            } else {
                flags[id]
            },
    )
}

/// Whether `flags` holds `id` as billed; an id without a record is not.
pub open spec fn flagged(flags: Map<i64, bool>, id: i64) -> bool {
    flags.contains_key(id) && flags[id]
}

/// Entry id to billed flag.
pub struct BilledStore {
    flags: HashMap<i64, bool>,
}

impl View for BilledStore {
    type V = Map<i64, bool>;

    closed spec fn view(&self) -> Map<i64, bool> {
        self.flags@
    }
}

impl BilledStore {
    /// A store without records.
    pub fn new() -> (store: BilledStore)
        ensures
            store@ == Map::<i64, bool>::empty(),
    {
        BilledStore { flags: HashMap::new() }
    }

    /// Takes over one persisted record, replacing an earlier one for `id`.
    pub fn record(&mut self, id: i64, billed: bool)
        ensures
            final(self)@ == old(self)@.insert(id, billed),
    {
        self.flags.insert(id, billed);
    }

    /// Whether `id` is marked billed. An id without a record is not billed.
    pub fn is_billed(&self, id: i64) -> (billed: bool)
        ensures
            billed == flagged(self@, id),
    {
        match self.flags.get(&id) {
            Some(flag) => *flag,
            None => false,
        }
    }

    /// Marks every id of `ids` billed.
    pub fn commit(&mut self, ids: &Vec<i64>)
        ensures
            final(self)@ == marked(old(self)@, ids@),
    {
        let mut i: usize = 0;
        while i < ids.len()
            invariant
                i <= ids.len(),
                self@ == marked(old(self)@, ids@.take(i as int)),
            decreases ids.len() - i,
        {
            let id: i64 = ids[i];
            self.flags.insert(id, true);
            proof {
                let before = ids@.take(i as int);
                let after = ids@.take(i + 1);
                assert(after == before.push(id));
                assert forall|k: i64| after.contains(k) <==> before.contains(k) || k == id by {
                    if before.contains(k) {
                        let j = choose|j: int| 0 <= j < before.len() && before[j] == k;
                        assert(after[j] == k);
                    }
                    if k == id {
                        assert(after[i as int] == k);
                    }
                }
                assert(self@ =~= marked(old(self)@, after));
            }
            i += 1;
        }
        proof {
            assert(ids@.take(ids.len() as int) == ids@);
        }
    }

    /// Concludes a commit attempt: the batch is taken over when the durable
    /// write went through, and the store stays as it was when it did not.
    pub fn conclude(&mut self, ids: &Vec<i64>, outcome: WriteOutcome)
        ensures
            outcome == WriteOutcome::Committed ==> final(self)@ == marked(old(self)@, ids@),
            outcome == WriteOutcome::Interrupted ==> final(self)@ == old(self)@,
    {
        match outcome {
            WriteOutcome::Committed => self.commit(ids),
            WriteOutcome::Interrupted => {},
        }
    }
}

} // verus!
