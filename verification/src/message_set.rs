//! The grow-only set of broadcast values a node has seen.

use std::collections::HashSet;
use vstd::prelude::*;
use vstd::std_specs::hash::spec_hash_keys_iter;
use vstd::std_specs::iter::IteratorSpec;

verus! {

broadcast use vstd::std_specs::hash::group_hash_axioms;

/// The values a node has observed. Values are only ever added.
pub struct MessageSet {
    values: HashSet<usize>,
}

impl View for MessageSet {
    type V = Set<usize>;

    closed spec fn view(&self) -> Set<usize> {
        self.values@
    }
}

impl MessageSet {
    /// The empty set.
    pub fn new() -> (s: Self)
        ensures
            s@ == Set::<usize>::empty(),
    {
        MessageSet { values: HashSet::new() }
    }

    /// Records `value`; the result tells whether it was new.
    pub fn observe(&mut self, value: usize) -> (fresh: bool)
        ensures
            final(self)@ == old(self)@.insert(value),
            fresh == !old(self)@.contains(value),
    {
        self.values.insert(value)
    }

    /// Whether `value` has been observed.
    pub fn contains(&self, value: usize) -> (found: bool)
        ensures
            found == self@.contains(value),
    {
        self.values.contains(&value)
    }

    /// Every observed value exactly once, in no particular order.
    pub fn read(&self) -> (values: Vec<usize>)
        ensures
            values@.to_set() == self@,
            values@.no_duplicates(),
    {
        let mut out: Vec<usize> = Vec::new();
        for v in it: self.values.iter()
            invariant
                it.seq() == spec_hash_keys_iter(&self.values).remaining(),
                out@ == it.seq().take(it.index()).unref(),
        {
            out.push(*v);
        }
        proof {
            let all = spec_hash_keys_iter(&self.values).remaining();
            assert(all.take(all.len() as int) == all);
            assert(all.unref().no_duplicates()) by {
                assert forall|i: int, j: int|
                    0 <= i < all.len() && 0 <= j < all.len() && i != j implies all.unref()[i]
                    != all.unref()[j] by {
                    assert(all[i] != all[j]);
                }
            }
        }
        out
    }
}

} // verus!
