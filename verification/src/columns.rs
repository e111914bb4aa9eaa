//! Hash maps and sets over the columns of the grid.

use std::collections::HashSet;

use vstd::prelude::*;

use crate::grid::IVec2;
use crate::grid_map::{GridKey, GridMap};

verus! {

/// A set of columns.
#[derive(Debug)]
pub struct ColumnSet {
    keys: HashSet<u128>,
}

impl View for ColumnSet {
    type V = Set<IVec2>;

    closed spec fn view(&self) -> Set<IVec2> {
        Set::new(|c: IVec2| self.keys@.contains(c.key()))
    }
}

impl ColumnSet {
    pub fn new() -> (s: ColumnSet)
        ensures
            s@ == Set::<IVec2>::empty(),
    {
        let s = ColumnSet { keys: HashSet::new() };
        assert(s@ =~= Set::<IVec2>::empty());
        s
    }

    /// Adds a column; tells whether it was not there before.
    pub fn insert(&mut self, c: IVec2) -> (fresh: bool)
        ensures
            final(self)@ == old(self)@.insert(c),
            fresh == !old(self)@.contains(c),
    {
        broadcast use vstd::std_specs::hash::group_hash_axioms;

        let fresh = self.keys.insert(c.pack());
        proof {
            assert forall|d: IVec2| self@.contains(d) == old(self)@.insert(c).contains(d) by {
                if d.key() == c.key() {
                    IVec2::lemma_injective(c, d);
                }
            }
            assert(self@ =~= old(self)@.insert(c));
        }
        fresh
    }

    pub fn contains(&self, c: IVec2) -> (r: bool)
        ensures
            r == self@.contains(c),
    {
        broadcast use vstd::std_specs::hash::group_hash_axioms;

        self.keys.contains(&c.pack())
    }
}

/// A map from columns to values.
pub type ColumnMap<V> = GridMap<IVec2, V>;

} // verus!
