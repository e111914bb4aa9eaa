//! The engine's hash map, from `(x, y)` pairs to numbers, and its hash set of
//! such pairs.

use bevy::platform::collections::{HashMap, HashSet};
use bevy::platform::hash::FixedHasher;
use vstd::prelude::*;

verus! {

#[verifier::external_type_specification]
#[verifier::external_body]
pub struct ExFixedHasher(FixedHasher);

#[verifier::external_type_specification]
#[verifier::external_body]
#[verifier::reject_recursive_types(K)]
#[verifier::reject_recursive_types(V)]
#[verifier::reject_recursive_types(S)]
pub struct ExHashMap<K, V, S>(HashMap<K, V, S>);

/// The engine's hash map from pairs of integers to numbers.
pub type ColumnTable = HashMap<(i32, i32), u64, FixedHasher>;

/// The entries of a table.
pub uninterp spec fn entries(t: ColumnTable) -> Map<(i32, i32), u64>;

pub open spec fn no_entries() -> Map<(i32, i32), u64> {
    Map::empty()
}

/// `m` has `n` entries.
pub open spec fn has_size(m: Map<(i32, i32), u64>, n: usize) -> bool {
    m.dom().finite() && n == m.dom().len()
}

/// `bevy::platform::collections::HashMap::new`: a map without entries.
#[verifier::external_body]
pub(crate) fn table_new() -> (t: ColumnTable)
    ensures
        entries(t) == no_entries(),
{
    HashMap::new()
}

/// `HashMap::get`: the value of a key, if the map has one; copied out.
#[verifier::external_body]
pub(crate) fn table_get(t: &ColumnTable, key: (i32, i32)) -> (v: Option<u64>)
    ensures
        v == (if entries(*t).contains_key(key) {
            Some(entries(*t)[key])
        } else {
            None
        }),
{
    t.get(&key).copied()
}

/// `HashMap::insert`: binds a key to a value, in place of an earlier one.
#[verifier::external_body]
pub(crate) fn table_insert(t: &mut ColumnTable, key: (i32, i32), value: u64)
    ensures
        entries(*final(t)) == entries(*old(t)).insert(key, value),
{
    t.insert(key, value);
}

/// `HashMap::remove`: takes a key out and returns its value, if it had one.
#[verifier::external_body]
pub(crate) fn table_remove(t: &mut ColumnTable, key: (i32, i32)) -> (v: Option<u64>)
    ensures
        entries(*final(t)) == entries(*old(t)).remove(key),
        v == (if entries(*old(t)).contains_key(key) {
            Some(entries(*old(t))[key])
        } else {
            None
        }),
{
    t.remove(&key)
}

/// `HashMap::len`: the number of entries.
#[verifier::external_body]
pub(crate) fn table_len(t: &ColumnTable) -> (n: usize)
    ensures
        has_size(entries(*t), n),
{
    t.len()
}

/// `HashMap::iter`: every entry once, copied into a list. The order is not
/// stated.
#[verifier::external_body]
pub(crate) fn table_list(t: &ColumnTable) -> (list: Vec<((i32, i32), u64)>)
    ensures
        crate::grid_map::lists(list@, entries(*t)),
{
    t.iter().map(|(k, v)| (*k, *v)).collect()
}

#[verifier::external_type_specification]
#[verifier::external_body]
#[verifier::reject_recursive_types(T)]
#[verifier::reject_recursive_types(S)]
pub struct ExHashSet<T, S>(HashSet<T, S>);

/// The engine's hash set of pairs of integers.
pub type PairSet = HashSet<(i32, i32), FixedHasher>;

/// The members of a set.
pub uninterp spec fn members(s: PairSet) -> Set<(i32, i32)>;

/// `bevy::platform::collections::HashSet::new`: a set without members.
#[verifier::external_body]
pub(crate) fn set_new() -> (s: PairSet)
    ensures
        members(s) == no_members(),
{
    HashSet::new()
}

/// `HashSet::insert`: adds a member; it is there afterwards, once.
#[verifier::external_body]
pub(crate) fn set_insert(s: &mut PairSet, pair: (i32, i32))
    ensures
        members(*final(s)) == members(*old(s)).insert(pair),
{
    s.insert(pair);
}

/// `HashSet::iter`: every member once, copied into a list. The order is not
/// stated.
#[verifier::external_body]
pub(crate) fn set_list(s: &PairSet) -> (list: Vec<(i32, i32)>)
    ensures
        lists_members(list@, members(*s)),
{
    s.iter().copied().collect()
}

pub open spec fn no_members() -> Set<(i32, i32)> {
    Set::empty()
}

/// `list` holds each member of `s` once.
pub open spec fn lists_members(list: Seq<(i32, i32)>, s: Set<(i32, i32)>) -> bool {
    list.no_duplicates() && list.to_set() == s
}

} // verus!
