//! Hash maps over grid points.

use std::collections::HashMap;

use vstd::prelude::*;
use vstd::std_specs::iter::IteratorSpec;

use crate::grid::{IVec2, IVec3};

verus! {

/// A point that packs into one integer.
pub trait GridKey: Copy {
    /// The packed form.
    spec fn key(self) -> u128;

    /// Distinct points pack into distinct integers.
    proof fn lemma_injective(a: Self, b: Self)
        requires
            a.key() == b.key(),
        ensures
            a == b,
    ;

    fn pack(self) -> (k: u128)
        ensures
            k == self.key(),
    ;
}

impl GridKey for IVec2 {
    open spec fn key(self) -> u128 {
        ((self.x + 0x8000_0000) * 0x1_0000_0000 + (self.y + 0x8000_0000)) as u128
    }

    proof fn lemma_injective(a: IVec2, b: IVec2) {
    }

    fn pack(self) -> (k: u128) {
        let x: u128 = (self.x as i64 + 0x8000_0000) as u128;
        let y: u128 = (self.y as i64 + 0x8000_0000) as u128;
        x * 0x1_0000_0000 + y
    }
}

impl GridKey for IVec3 {
    open spec fn key(self) -> u128 {
        ((self.x + 0x8000_0000) * 0x1_0000_0000_0000_0000 + (self.y + 0x8000_0000)
            * 0x1_0000_0000 + (self.z + 0x8000_0000)) as u128
    }

    proof fn lemma_injective(a: IVec3, b: IVec3) {
    }

    fn pack(self) -> (k: u128) {
        let x: u128 = (self.x as i64 + 0x8000_0000) as u128;
        let y: u128 = (self.y as i64 + 0x8000_0000) as u128;
        let z: u128 = (self.z as i64 + 0x8000_0000) as u128;
        x * 0x1_0000_0000_0000_0000 + y * 0x1_0000_0000 + z
    }
}

/// A sparse map from grid points to values.
#[derive(Debug)]
pub struct GridMap<K, V> {
    entries: HashMap<u128, (K, V)>,
}

impl<K: GridKey, V> View for GridMap<K, V> {
    type V = Map<K, V>;

    closed spec fn view(&self) -> Map<K, V> {
        Map::new(
            |c: K| self.entries@.contains_key(c.key()),
            |c: K| self.entries@[c.key()].1,
        )
    }
}

/// `list` holds each entry of `m` once, in any order.
pub open spec fn lists<K, V>(list: Seq<(K, V)>, m: Map<K, V>) -> bool {
    &&& list.len() == m.dom().len()
    &&& m.dom().finite()
    &&& forall|i: int|
        0 <= i < list.len() ==> m.contains_key((#[trigger] list[i]).0) && m[list[i].0] == list[i].1
    &&& forall|i: int, j: int| 0 <= i < j < list.len() ==> list[i].0 != list[j].0
    &&& forall|c: K| #[trigger] m.contains_key(c) ==> exists|i: int|
        0 <= i < list.len() && list[i].0 == c
}

impl<K: GridKey, V: Copy> GridMap<K, V> {
    /// Every entry is filed under the key of its point.
    pub closed spec fn wf(&self) -> bool {
        forall|k: u128| #[trigger]
            self.entries@.contains_key(k) ==> self.entries@[k].0.key() == k
    }

    pub fn new() -> (m: GridMap<K, V>)
        ensures
            m.wf(),
            m@ == Map::<K, V>::empty(),
    {
        let m = GridMap { entries: HashMap::new() };
        assert(m@ =~= Map::<K, V>::empty());
        m
    }

    /// A map has as many points as entries.
    proof fn lemma_len(&self)
        requires
            self.wf(),
        ensures
            self@.dom().finite(),
            self@.dom().len() == self.entries@.dom().len(),
    {
        broadcast use vstd::std_specs::hash::group_hash_axioms;

        let f = |k: u128| self.entries@[k].0;
        let raw = self.entries@.dom();
        assert(raw.finite());
        assert(self@.dom() =~= raw.map(f)) by {
            assert forall|c: K| self@.dom().contains(c) implies raw.map(f).contains(c) by {
                let k = c.key();
                assert(self.entries@.contains_key(k));
                K::lemma_injective(self.entries@[k].0, c);
                assert(raw.contains(k) && f(k) == c);
            }
            assert forall|c: K| raw.map(f).contains(c) implies self@.dom().contains(c) by {
                let k = choose|k: u128| raw.contains(k) && f(k) == c;
                assert(self.entries@.contains_key(k));
                assert(c.key() == k);
            }
        }
        raw.lemma_map_finite(f);
        assert forall|a: u128, b: u128| #![auto]
            raw.contains(a) && raw.contains(b) && f(a) == f(b) implies a == b by {
            assert(self.entries@.contains_key(a));
            assert(self.entries@.contains_key(b));
        }
        vstd::set_lib::lemma_map_size(raw, raw.map(f), f);
    }

    /// Binds a point to a value; returns the one that was there before.
    pub fn insert(&mut self, point: K, value: V) -> (before: Option<V>)
        ensures
            old(self).wf() ==> final(self).wf(),
            final(self)@ == old(self)@.insert(point, value),
            before == (if old(self)@.contains_key(point) {
                Some(old(self)@[point])
            } else {
                None
            }),
    {
        broadcast use vstd::std_specs::hash::group_hash_axioms;

        let before = self.entries.insert(point.pack(), (point, value));
        proof {
            assert forall|d: K| d.key() == point.key() implies point
                == d by {
                K::lemma_injective(point, d);
            }
            assert(self@ =~= old(self)@.insert(point, value));
        }
        match before {
            Some(e) => Some(e.1),
            None => None,
        }
    }

    pub fn get(&self, point: K) -> (v: Option<V>)
        ensures
            v == (if self@.contains_key(point) {
                Some(self@[point])
            } else {
                None
            }),
    {
        broadcast use vstd::std_specs::hash::group_hash_axioms;

        match self.entries.get(&point.pack()) {
            Some(e) => Some(e.1),
            None => None,
        }
    }

    /// Takes an entry out; tells whether there was one.
    pub fn remove(&mut self, point: K) -> (was: bool)
        requires
            old(self).wf(),
        ensures
            final(self).wf(),
            final(self)@ == old(self)@.remove(point),
            was == old(self)@.contains_key(point),
    {
        broadcast use vstd::std_specs::hash::group_hash_axioms;

        let was = self.entries.remove(&point.pack()).is_some();
        proof {
            assert forall|d: K| d.key() == point.key() implies point
                == d by {
                K::lemma_injective(point, d);
            }
            assert(self@ =~= old(self)@.remove(point));
        }
        was
    }

    /// Number of entries.
    pub fn len(&self) -> (n: usize)
        requires
            self.wf(),
        ensures
            self@.dom().finite(),
            n == self@.dom().len(),
    {
        broadcast use vstd::std_specs::hash::group_hash_axioms;

        proof {
            self.lemma_len();
        }
        self.entries.len()
    }

    /// Every entry once, in no particular order.
    pub fn to_vec(&self) -> (list: Vec<(K, V)>)
        requires
            self.wf(),
        ensures
            lists(list@, self@),
    {
        broadcast use vstd::std_specs::hash::group_hash_axioms;

        proof {
            self.lemma_len();
        }
        let mut list: Vec<(K, V)> = Vec::new();
        let ghost raw = self.entries@;
        let ghost order: Seq<u128> = self.entries.keys().remaining().unref();
        for k in it: self.entries.keys()
            invariant
                obeys_u128(),
                raw == self.entries@,
                order == it.seq().unref(),
                order.no_duplicates(),
                order.to_set() == raw.dom(),
                order.len() == raw.dom().len(),
                forall|k: u128| #[trigger] raw.contains_key(k) ==> raw[k].0.key() == k,
                list@.len() == it.index(),
                forall|i: int| 0 <= i < it.index() ==> #[trigger] list@[i] == raw[order[i]],
        {
            proof {
                assert(order[it.index() as int] == *k);
                assert(order.contains(*k));
                assert(order.to_set().contains(*k));
            }
            match self.entries.get(k) {
                Some(e) => {
                    list.push(*e);
                },
                None => {},
            }
        }
        proof {
            assert forall|i: int| 0 <= i < list@.len() implies self@.contains_key(
                (#[trigger] list@[i]).0,
            ) && self@[list@[i].0] == list@[i].1 by {
                assert(order.contains(order[i]));
                assert(order.to_set().contains(order[i]));
                assert(raw.contains_key(order[i]));
            }
            assert forall|i: int, j: int| 0 <= i < j < list@.len() implies list@[i].0
                != list@[j].0 by {
                assert(order.contains(order[i]) && order.contains(order[j]));
                assert(order.to_set().contains(order[i]) && order.to_set().contains(order[j]));
                assert(raw.contains_key(order[i]) && raw.contains_key(order[j]));
                assert(order[i] != order[j]);
                assert(list@[i] == raw[order[i]] && list@[j] == raw[order[j]]);
            }
            assert forall|c: K| #[trigger] self@.contains_key(c) implies exists|i: int|
                0 <= i < list@.len() && list@[i].0 == c by {
                let k = c.key();
                assert(raw.contains_key(k));
                assert(order.to_set().contains(k));
                let i = order.index_of(k);
                assert(list@[i] == raw[k]);
                K::lemma_injective(raw[k].0, c);
            }
        }
        list
    }
}

/// Integers serve as hash keys.
spec fn obeys_u128() -> bool {
    vstd::std_specs::hash::obeys_key_model::<u128>()
        && vstd::std_specs::hash::builds_valid_hashers::<std::hash::RandomState>()
}

} // verus!
