//! Hash tables of `rustc_hash`, which are tables of the standard library under a hasher of its own.

use rustc_hash::{FxBuildHasher, FxHashMap, FxHashSet};
use vstd::prelude::*;

verus! {

/// The hasher builder of `rustc_hash`, of which nothing is known here.
#[verifier::external_type_specification]
#[verifier::external_body]
pub struct ExFxBuildHasher(FxBuildHasher);

/// Makes an empty `rustc_hash::FxHashSet`.
#[verifier::external_body]
pub(crate) fn set_new() -> (set: FxHashSet<u32>)
    ensures
        set@ == Set::<u32>::empty(),
{
    FxHashSet::default()
}

/// Calls `insert` of a `rustc_hash::FxHashSet`: the number is in the set afterwards, and the
/// result says whether it was not before.
#[verifier::external_body]
pub(crate) fn set_insert(set: &mut FxHashSet<u32>, value: u32) -> (added: bool)
    ensures
        final(set)@ == old(set)@.insert(value),
        added == !old(set)@.contains(value),
{
    set.insert(value)
}

/// Calls `contains` of a `rustc_hash::FxHashSet`.
#[verifier::external_body]
pub(crate) fn set_contains(set: &FxHashSet<u32>, value: u32) -> (present: bool)
    ensures
        present == set@.contains(value),
{
    set.contains(&value)
}

/// Calls `clear` of a `rustc_hash::FxHashSet`.
#[verifier::external_body]
pub(crate) fn set_clear(set: &mut FxHashSet<u32>)
    ensures
        final(set)@ == Set::<u32>::empty(),
{
    set.clear();
}

/// Walks a `rustc_hash::FxHashSet`: each of its numbers comes once. The order in which they come
/// is left open.
#[verifier::external_body]
pub(crate) fn set_items(set: &FxHashSet<u32>) -> (items: Vec<u32>)
    ensures
        items@.no_duplicates(),
        items@.to_set() == set@,
{
    set.iter().copied().collect()
}

/// Makes an empty `rustc_hash::FxHashMap`.
#[verifier::external_body]
pub(crate) fn map_new() -> (table: FxHashMap<u64, usize>)
    ensures
        table@.dom() == Set::<u64>::empty(),
{
    FxHashMap::default()
}

/// Calls `get` of a `rustc_hash::FxHashMap`.
#[verifier::external_body]
pub(crate) fn map_get(map: &FxHashMap<u64, usize>, key: u64) -> (value: Option<usize>)
    ensures
        match value {
            Some(value) => map@.contains_key(key) && map@[key] == value,
            None => !map@.contains_key(key),
        },
{
    map.get(&key).copied()
}

/// Calls `insert` of a `rustc_hash::FxHashMap`: the key has the value afterwards.
#[verifier::external_body]
pub(crate) fn map_insert(map: &mut FxHashMap<u64, usize>, key: u64, value: usize)
    ensures
        final(map)@ == old(map)@.insert(key, value),
{
    map.insert(key, value);
}

} // verus!
