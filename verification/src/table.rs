//! A map that keeps its entries in strictly increasing key order.

use vstd::prelude::*;

use crate::order::{Key, Place};
use crate::plain::Plain;

verus! {

/// Whether a sequence lists a map's entries in strictly increasing key order.
pub open spec fn lists<K: Key, W>(listing: Seq<(K::V, W)>, map: Map<K::V, W>) -> bool {
    &&& forall|i: int, j: int|
        0 <= i < j < listing.len() ==> K::before((#[trigger] listing[i]).0, (#[trigger] listing[j]).0)
    &&& forall|i: int|
        0 <= i < listing.len() ==> map.contains_key((#[trigger] listing[i]).0)
            && map[listing[i].0] == listing[i].1
    &&& forall|key: K::V| #[trigger]
        map.contains_key(key) ==> exists|i: int| 0 <= i < listing.len() && (#[trigger] listing[i]).0 == key
}

/// The entries of a map in increasing key order.
pub open spec fn ordered<K: Key, W>(map: Map<K::V, W>) -> Seq<(K::V, W)> {
    choose|listing: Seq<(K::V, W)>| lists::<K, W>(listing, map)
}

/// The values of a map in increasing key order.
pub open spec fn ordered_values<K: Key, W>(map: Map<K::V, W>) -> Seq<W> {
    ordered::<K, W>(map).map_values(|entry: (K::V, W)| entry.1)
}

/// The keys of a map in increasing order.
pub open spec fn ordered_keys<K: Key, W>(map: Map<K::V, W>) -> Seq<K::V> {
    ordered::<K, W>(map).map_values(|entry: (K::V, W)| entry.0)
}

proof fn lemma_listing_unique<K: Key, W>(
    left: Seq<(K::V, W)>,
    right: Seq<(K::V, W)>,
    map: Map<K::V, W>,
)
    requires
        lists::<K, W>(left, map),
        lists::<K, W>(right, map),
    ensures
        left == right,
    decreases left.len(),
{
    if left.len() == 0 {
        if right.len() > 0 {
            assert(map.contains_key(right[0].0));
        }
        assert(left =~= right);
    } else {
        let last = left.last();
        assert(map.contains_key(left[left.len() - 1].0));
        let at = choose|i: int| 0 <= i < right.len() && (#[trigger] right[i]).0 == last.0;
        if at < right.len() - 1 {
            let beyond = right.last();
            assert(K::before(right[at].0, right[right.len() - 1].0));
            assert(map.contains_key(right[right.len() - 1].0));
            let back = choose|i: int| 0 <= i < left.len() && (#[trigger] left[i]).0 == beyond.0;
            if back < left.len() - 1 {
                assert(K::before(left[back].0, left[left.len() - 1].0));
                K::lemma_transitive(last.0, beyond.0, last.0);
                K::lemma_irreflexive(last.0);
            } else {
                K::lemma_irreflexive(last.0);
            }
        }
        let smaller = map.remove(last.0);
        lemma_listing_shrinks::<K, W>(left, map);
        lemma_listing_shrinks::<K, W>(right, map);
        lemma_listing_unique::<K, W>(left.drop_last(), right.drop_last(), smaller);
        assert(left =~= left.drop_last().push(last));
        assert(right =~= right.drop_last().push(right.last()));
    }
}

/// A list of entries is that of one map only.
pub proof fn lemma_listed_maps<K: Key, W>(
    listing: Seq<(K::V, W)>,
    left: Map<K::V, W>,
    right: Map<K::V, W>,
)
    requires
        lists::<K, W>(listing, left),
        lists::<K, W>(listing, right),
    ensures
        left == right,
{
    assert forall|key: K::V| #[trigger] left.contains_key(key) <==> right.contains_key(key) by {
        if left.contains_key(key) {
            let i = choose|i: int| 0 <= i < listing.len() && (#[trigger] listing[i]).0 == key;
            assert(right.contains_key(listing[i].0));
        }
        if right.contains_key(key) {
            let i = choose|i: int| 0 <= i < listing.len() && (#[trigger] listing[i]).0 == key;
            assert(left.contains_key(listing[i].0));
        }
    }
    assert forall|key: K::V| #[trigger] left.contains_key(key) implies left[key] == right[key] by {
        let i = choose|i: int| 0 <= i < listing.len() && (#[trigger] listing[i]).0 == key;
        assert(right.contains_key(listing[i].0));
    }
    assert(left =~= right);
}

proof fn lemma_listing_shrinks<K: Key, W>(listing: Seq<(K::V, W)>, map: Map<K::V, W>)
    requires
        lists::<K, W>(listing, map),
        listing.len() > 0,
    ensures
        lists::<K, W>(listing.drop_last(), map.remove(listing.last().0)),
{
    let shorter = listing.drop_last();
    let smaller = map.remove(listing.last().0);
    assert forall|i: int| 0 <= i < shorter.len() implies smaller.contains_key(
        (#[trigger] shorter[i]).0,
    ) && smaller[shorter[i].0] == shorter[i].1 by {
        assert(shorter[i] == listing[i]);
        assert(K::before(listing[i].0, listing[listing.len() - 1].0));
        K::lemma_irreflexive(listing[i].0);
    }
    assert forall|key: K::V| #[trigger] smaller.contains_key(key) implies exists|i: int|
        0 <= i < shorter.len() && (#[trigger] shorter[i]).0 == key by {
        assert(map.contains_key(key));
        let i = choose|i: int| 0 <= i < listing.len() && (#[trigger] listing[i]).0 == key;
        assert(shorter[i] == listing[i]);
    }
    assert forall|i: int, j: int| 0 <= i < j < shorter.len() implies K::before(
        (#[trigger] shorter[i]).0,
        (#[trigger] shorter[j]).0,
    ) by {
        assert(shorter[i] == listing[i] && shorter[j] == listing[j]);
    }
}

/// Whatever lists a map's entries in increasing key order is the ordered listing.
pub proof fn lemma_ordered<K: Key, W>(listing: Seq<(K::V, W)>, map: Map<K::V, W>)
    requires
        lists::<K, W>(listing, map),
    ensures
        ordered::<K, W>(map) == listing,
{
    lemma_listing_unique::<K, W>(ordered::<K, W>(map), listing, map);
}

/// A listing with one more entry.
spec fn listed_with<K: Key, W>(listing: Seq<(K::V, W)>, key: K::V, value: W) -> Seq<(K::V, W)>
    decreases listing.len(),
{
    if listing.len() > 0 && K::before(key, listing.last().0) {
        listed_with::<K, W>(listing.drop_last(), key, value).push(listing.last())
    } else {
        listing.push((key, value))
    }
}

proof fn lemma_listed_with<K: Key, W>(
    listing: Seq<(K::V, W)>,
    map: Map<K::V, W>,
    key: K::V,
    value: W,
)
    requires
        lists::<K, W>(listing, map),
        !map.contains_key(key),
    ensures
        lists::<K, W>(listed_with::<K, W>(listing, key, value), map.insert(key, value)),
    decreases listing.len(),
{
    let longer = listed_with::<K, W>(listing, key, value);
    let larger = map.insert(key, value);
    if listing.len() > 0 && K::before(key, listing.last().0) {
        let last = listing.last();
        let inner = listed_with::<K, W>(listing.drop_last(), key, value);
        let smaller = map.remove(last.0);
        lemma_listing_shrinks::<K, W>(listing, map);
        assert(map.contains_key(listing[listing.len() - 1].0));
        lemma_listed_with::<K, W>(listing.drop_last(), smaller, key, value);
        let bounded = smaller.insert(key, value);
        assert forall|i: int, j: int| 0 <= i < j < longer.len() implies K::before(
            (#[trigger] longer[i]).0,
            (#[trigger] longer[j]).0,
        ) by {
            assert(longer[i] == inner[i]);
            if j == inner.len() {
                assert(bounded.contains_key(inner[i].0));
                if inner[i].0 != key {
                    assert(smaller.contains_key(inner[i].0));
                    let at = choose|at: int|
                        0 <= at < listing.drop_last().len() && (#[trigger] listing.drop_last()[at]).0
                            == inner[i].0;
                    assert(listing[at] == listing.drop_last()[at]);
                    assert(K::before(listing[at].0, listing[listing.len() - 1].0));
                }
            } else {
                assert(longer[j] == inner[j]);
            }
        }
        assert forall|i: int| 0 <= i < longer.len() implies larger.contains_key(
            (#[trigger] longer[i]).0,
        ) && larger[longer[i].0] == longer[i].1 by {
            if i < inner.len() {
                assert(longer[i] == inner[i]);
                assert(bounded.contains_key(inner[i].0));
            }
        }
        assert forall|other: K::V| #[trigger] larger.contains_key(other) implies exists|i: int|
            0 <= i < longer.len() && (#[trigger] longer[i]).0 == other by {
            if other == last.0 {
                assert(longer[inner.len() as int].0 == other);
            } else {
                assert(bounded.contains_key(other));
                let at = choose|at: int| 0 <= at < inner.len() && (#[trigger] inner[at]).0 == other;
                assert(longer[at] == inner[at]);
            }
        }
    } else {
        assert forall|i: int, j: int| 0 <= i < j < longer.len() implies K::before(
            (#[trigger] longer[i]).0,
            (#[trigger] longer[j]).0,
        ) by {
            assert(longer[i] == listing[i]);
            if j == listing.len() {
                let last = listing[listing.len() - 1];
                assert(map.contains_key(last.0));
                K::lemma_total(last.0, key);
                if i < listing.len() - 1 {
                    assert(K::before(listing[i].0, listing[listing.len() - 1].0));
                    K::lemma_transitive(listing[i].0, last.0, key);
                }
            } else {
                assert(longer[j] == listing[j]);
            }
        }
        assert forall|i: int| 0 <= i < longer.len() implies larger.contains_key(
            (#[trigger] longer[i]).0,
        ) && larger[longer[i].0] == longer[i].1 by {
            if i < listing.len() {
                assert(longer[i] == listing[i]);
                assert(map.contains_key(listing[i].0));
            }
        }
        assert forall|other: K::V| #[trigger] larger.contains_key(other) implies exists|i: int|
            0 <= i < longer.len() && (#[trigger] longer[i]).0 == other by {
            if other == key {
                assert(longer[listing.len() as int].0 == other);
            } else {
                assert(map.contains_key(other));
                let at = choose|at: int|
                    0 <= at < listing.len() && (#[trigger] listing[at]).0 == other;
                assert(longer[at] == listing[at]);
            }
        }
    }
}

/// A list of entries is as long as the map.
pub proof fn lemma_listed_length<K: Key, W>(listing: Seq<(K::V, W)>, map: Map<K::V, W>)
    requires
        lists::<K, W>(listing, map),
    ensures
        map.dom().finite(),
        map.len() == listing.len(),
    decreases listing.len(),
{
    if listing.len() == 0 {
        assert(map.dom() =~= Set::empty());
    } else {
        let last = listing.last().0;
        assert(map.contains_key(listing[listing.len() - 1].0));
        lemma_listing_shrinks::<K, W>(listing, map);
        lemma_listed_length::<K, W>(listing.drop_last(), map.remove(last));
        assert(map.dom() =~= map.remove(last).dom().insert(last));
    }
}

/// The entries of every finite map can be listed in order.
pub proof fn lemma_ordered_lists<K: Key, W>(map: Map<K::V, W>)
    requires
        map.dom().finite(),
    ensures
        lists::<K, W>(ordered::<K, W>(map), map),
    decreases map.dom().len(),
{
    if map.dom().len() == 0 {
        assert(map =~= Map::empty());
        assert(lists::<K, W>(Seq::empty(), map));
    } else {
        let key = map.dom().choose();
        let smaller = map.remove(key);
        lemma_ordered_lists::<K, W>(smaller);
        let listing = listed_with::<K, W>(ordered::<K, W>(smaller), key, map[key]);
        lemma_listed_with::<K, W>(ordered::<K, W>(smaller), smaller, key, map[key]);
        assert(smaller.insert(key, map[key]) =~= map);
        assert(lists::<K, W>(listing, map));
    }
}

/// Whether a key is among the first ones of a listing.
spec fn is_listed<K: Key, W>(listing: Seq<(K::V, W)>, count: int, key: K::V) -> bool {
    exists|i: int| 0 <= i < count && (#[trigger] listing[i]).0 == key
}

/// An ordered map.
#[derive(Debug)]
pub struct Table<K: Key, V: Plain> {
    entries: Vec<(K, V)>,
}

impl<K: Key, V: Plain> DeepView for Table<K, V> {
    type V = Map<K::V, V::V>;

    closed spec fn deep_view(&self) -> Map<K::V, V::V> {
        entries_map::<K, V>(self.entries.deep_view())
    }
}

spec fn entries_map<K: Key, V: Plain>(entries: Seq<(K::V, V::V)>) -> Map<K::V, V::V> {
    Map::new(
        |key: K::V| exists|i: int| 0 <= i < entries.len() && (#[trigger] entries[i]).0 == key,
        |key: K::V| entries[choose|i: int| 0 <= i < entries.len() && (#[trigger] entries[i]).0 == key].1,
    )
}

spec fn increasing<K: Key, V: Plain>(entries: Seq<(K::V, V::V)>) -> bool {
    forall|i: int, j: int|
        0 <= i < j < entries.len() ==> K::before((#[trigger] entries[i]).0, (#[trigger] entries[j]).0)
}

proof fn lemma_entries_list<K: Key, V: Plain>(entries: Seq<(K::V, V::V)>)
    requires
        increasing::<K, V>(entries),
    ensures
        lists::<K, V::V>(entries, entries_map::<K, V>(entries)),
        ordered::<K, V::V>(entries_map::<K, V>(entries)) == entries,
        entries_map::<K, V>(entries).dom().finite(),
        entries_map::<K, V>(entries).len() == entries.len(),
{
    let map = entries_map::<K, V>(entries);
    assert forall|i: int| 0 <= i < entries.len() implies map.contains_key((#[trigger] entries[i]).0)
        && map[entries[i].0] == entries[i].1 by {
        let key = entries[i].0;
        let found = choose|j: int| 0 <= j < entries.len() && (#[trigger] entries[j]).0 == key;
        K::lemma_irreflexive(key);
        if found < i {
            assert(K::before(entries[found].0, entries[i].0));
        } else if i < found {
            assert(K::before(entries[i].0, entries[found].0));
        }
    }
    lemma_ordered::<K, V::V>(entries, map);
    let keys = entries.map_values(|entry: (K::V, V::V)| entry.0);
    assert forall|i: int, j: int| 0 <= i < keys.len() && 0 <= j < keys.len() && i != j implies keys[i]
        != keys[j] by {
        K::lemma_irreflexive(keys[i]);
        if i < j {
            assert(K::before(entries[i].0, entries[j].0));
        } else {
            assert(K::before(entries[j].0, entries[i].0));
        }
    }
    keys.unique_seq_to_set();
    assert(keys.to_set() =~= map.dom()) by {
        assert forall|key: K::V| #[trigger] map.dom().contains(key) implies keys.to_set().contains(
            key,
        ) by {
            let i = choose|i: int| 0 <= i < entries.len() && (#[trigger] entries[i]).0 == key;
            assert(keys[i] == key);
        }
        assert forall|key: K::V| #[trigger] keys.to_set().contains(key) implies map.dom().contains(
            key,
        ) by {
            let i = choose|i: int| 0 <= i < keys.len() && keys[i] == key;
            assert(entries[i].0 == key);
        }
    }
}

impl<K: Key, V: Plain> Table<K, V> {
    #[verifier::type_invariant]
    spec fn well_formed(self) -> bool {
        increasing::<K, V>(self.entries.deep_view())
    }

    /// Makes an empty table.
    pub fn new() -> (table: Self)
        ensures
            table.deep_view() == Map::<K::V, V::V>::empty(),
    {
        let table = Table { entries: Vec::new() };
        assert(table.deep_view() =~= Map::<K::V, V::V>::empty());
        table
    }

    /// The number of entries.
    pub fn len(&self) -> (count: usize)
        ensures
            count == self.deep_view().len(),
            count == ordered::<K, V::V>(self.deep_view()).len(),
            lists::<K, V::V>(ordered::<K, V::V>(self.deep_view()), self.deep_view()),
            self.deep_view().dom().finite(),
    {
        proof {
            use_type_invariant(self);
            lemma_entries_list::<K, V>(self.entries.deep_view());
        }
        self.entries.len()
    }

    /// The key at a position in key order.
    pub fn key_at(&self, index: usize) -> (key: &K)
        requires
            index < ordered::<K, V::V>(self.deep_view()).len(),
        ensures
            key.deep_view() == ordered::<K, V::V>(self.deep_view())[index as int].0,
    {
        proof {
            use_type_invariant(self);
            lemma_entries_list::<K, V>(self.entries.deep_view());
        }
        &self.entries[index].0
    }

    /// The value at a position in key order.
    pub fn value_at(&self, index: usize) -> (value: &V)
        requires
            index < ordered::<K, V::V>(self.deep_view()).len(),
        ensures
            value.deep_view() == ordered::<K, V::V>(self.deep_view())[index as int].1,
    {
        proof {
            use_type_invariant(self);
            lemma_entries_list::<K, V>(self.entries.deep_view());
        }
        &self.entries[index].1
    }

    /// Where a key stands, or where it would be inserted.
    fn locate(&self, key: &K) -> (found: (bool, usize))
        ensures
            found.1 <= self.entries.len(),
            found.0 ==> found.1 < self.entries.len() && self.entries.deep_view()[found.1 as int].0
                == key.deep_view(),
            forall|i: int|
                0 <= i < found.1 ==> K::before(
                    (#[trigger] self.entries.deep_view()[i]).0,
                    key.deep_view(),
                ),
            !found.0 ==> forall|i: int|
                found.1 <= i < self.entries.len() ==> K::before(
                    key.deep_view(),
                    (#[trigger] self.entries.deep_view()[i]).0,
                ),
    {
        proof {
            use_type_invariant(self);
        }
        let ghost entries = self.entries.deep_view();
        let ghost sought = key.deep_view();
        let mut low: usize = 0;
        let mut high: usize = self.entries.len();
        while low < high
            invariant
                low <= high <= self.entries.len(),
                entries == self.entries.deep_view(),
                sought == key.deep_view(),
                increasing::<K, V>(entries),
                forall|i: int| 0 <= i < low ==> K::before((#[trigger] entries[i]).0, sought),
                forall|i: int|
                    high <= i < entries.len() ==> K::before(sought, (#[trigger] entries[i]).0),
            decreases high - low,
        {
            let middle: usize = low + (high - low) / 2;
            let place = self.entries[middle].0.place(key);
            assert(entries[middle as int].0 == self.entries@[middle as int].0.deep_view());
            match place {
                Place::Same => {
                    return (true, middle);
                },
                Place::Before => {
                    proof {
                        assert forall|i: int| 0 <= i <= middle implies K::before(
                            (#[trigger] entries[i]).0,
                            sought,
                        ) by {
                            if i < middle {
                                K::lemma_transitive(entries[i].0, entries[middle as int].0, sought);
                            }
                        }
                    }
                    low = middle + 1;
                },
                Place::After => {
                    proof {
                        assert forall|i: int| middle <= i < entries.len() implies K::before(
                            sought,
                            (#[trigger] entries[i]).0,
                        ) by {
                            if middle < i {
                                K::lemma_transitive(sought, entries[middle as int].0, entries[i].0);
                            }
                        }
                    }
                    high = middle;
                },
            }
        }
        (false, low)
    }

    /// The value of a key.
    pub fn get(&self, key: &K) -> (value: Option<&V>)
        ensures
            match value {
                Some(value) => self.deep_view().contains_key(key.deep_view())
                    && self.deep_view()[key.deep_view()] == value.deep_view(),
                None => !self.deep_view().contains_key(key.deep_view()),
            },
    {
        proof {
            use_type_invariant(self);
            lemma_entries_list::<K, V>(self.entries.deep_view());
        }
        let (present, at) = self.locate(key);
        if present {
            Some(&self.entries[at].1)
        } else {
            proof {
                let entries = self.entries.deep_view();
                if self.deep_view().contains_key(key.deep_view()) {
                    let i = choose|i: int|
                        0 <= i < entries.len() && (#[trigger] entries[i]).0 == key.deep_view();
                    K::lemma_irreflexive(entries[i].0);
                }
            }
            None
        }
    }

    /// Whether a key has a value.
    pub fn contains(&self, key: &K) -> (present: bool)
        ensures
            present == self.deep_view().contains_key(key.deep_view()),
    {
        self.get(key).is_some()
    }

    /// Gives a key a value and returns the value it had.
    pub fn insert(&mut self, key: K, value: V) -> (replaced: Option<V>)
        ensures
            final(self).deep_view() == old(self).deep_view().insert(
                key.deep_view(),
                value.deep_view(),
            ),
            match replaced {
                Some(prior) => old(self).deep_view().contains_key(key.deep_view())
                    && old(self).deep_view()[key.deep_view()] == prior.deep_view(),
                None => !old(self).deep_view().contains_key(key.deep_view()),
            },
    {
        proof {
            use_type_invariant(&*self);
            lemma_entries_list::<K, V>(self.entries.deep_view());
        }
        let ghost before = self.entries.deep_view();
        let ghost map = self.deep_view();
        let ghost k = key.deep_view();
        let ghost v = value.deep_view();
        let (present, at) = self.locate(&key);
        let mut entries: Vec<(K, V)> = Vec::new();
        std::mem::swap(&mut entries, &mut self.entries);
        let mut replaced: Option<V> = None;
        if present {
            let (_, prior) = entries.remove(at);
            replaced = Some(prior);
        }
        entries.insert(at, (key, value));
        proof {
            let after = entries.deep_view();
            if present {
                assert(after =~= before.update(at as int, (k, v)));
            } else {
                assert(after =~= before.insert(at as int, (k, v)));
            }
            assert(increasing::<K, V>(after));
            lemma_entries_list::<K, V>(after);
            let updated = entries_map::<K, V>(after);
            assert forall|key: K::V| #[trigger] updated.contains_key(key) <==> map.insert(
                k,
                v,
            ).contains_key(key) by {
                if updated.contains_key(key) {
                    let i = choose|i: int| 0 <= i < after.len() && (#[trigger] after[i]).0 == key;
                    if i != at {
                        if present || i < at {
                            assert(before[i].0 == key);
                        } else {
                            assert(before[i - 1].0 == key);
                        }
                    }
                }
                if map.insert(k, v).contains_key(key) {
                    if key == k {
                        assert(after[at as int].0 == key);
                    } else {
                        let i = choose|i: int|
                            0 <= i < before.len() && (#[trigger] before[i]).0 == key;
                        if present || i < at {
                            assert(after[i].0 == key);
                        } else {
                            assert(after[i + 1].0 == key);
                        }
                    }
                }
            }
            assert forall|key: K::V| #[trigger] updated.contains_key(key) implies updated[key]
                == map.insert(k, v)[key] by {
                let i = choose|i: int| 0 <= i < after.len() && (#[trigger] after[i]).0 == key;
                if i != at {
                    K::lemma_irreflexive(key);
                    if key == k {
                        if i < at {
                            assert(K::before(after[i].0, after[at as int].0));
                        } else {
                            assert(K::before(after[at as int].0, after[i].0));
                        }
                    }
                    if present || i < at {
                        assert(before[i] == after[i]);
                        assert(map[before[i].0] == before[i].1);
                    } else {
                        assert(before[i - 1] == after[i]);
                        assert(map[before[i - 1].0] == before[i - 1].1);
                    }
                } else {
                    assert(after[at as int] == (k, v));
                }
            }
            assert(updated =~= map.insert(k, v));
            if present {
                assert(map.contains_key(before[at as int].0));
            } else if map.contains_key(k) {
                let i = choose|i: int| 0 <= i < before.len() && (#[trigger] before[i]).0 == k;
                K::lemma_irreflexive(k);
            }
        }
        self.entries = entries;
        replaced
    }

    /// Hands out the entries in key order.
    pub fn into_entries(self) -> (entries: Vec<(K, V)>)
        ensures
            entries.deep_view() == ordered::<K, V::V>(self.deep_view()),
            entries.len() == self.deep_view().len(),
    {
        proof {
            use_type_invariant(&self);
            lemma_entries_list::<K, V>(self.entries.deep_view());
        }
        self.entries
    }

    /// Gives a key that has a value another one and returns the value it had.
    pub fn exchange(&mut self, key: &K, value: V) -> (prior: V)
        requires
            old(self).deep_view().contains_key(key.deep_view()),
        ensures
            final(self).deep_view() == old(self).deep_view().insert(
                key.deep_view(),
                value.deep_view(),
            ),
            prior.deep_view() == old(self).deep_view()[key.deep_view()],
    {
        proof {
            use_type_invariant(&*self);
            lemma_entries_list::<K, V>(self.entries.deep_view());
        }
        let ghost before = self.entries.deep_view();
        let ghost map = self.deep_view();
        let ghost k = key.deep_view();
        let ghost v = value.deep_view();
        let (present, at) = self.locate(key);
        proof {
            let i = choose|i: int| 0 <= i < before.len() && (#[trigger] before[i]).0 == k;
            K::lemma_irreflexive(k);
            assert(present);
            assert(map[before[at as int].0] == before[at as int].1);
        }
        let mut entries: Vec<(K, V)> = Vec::new();
        std::mem::swap(&mut entries, &mut self.entries);
        let mut other = value;
        std::mem::swap(&mut entries[at].1, &mut other);
        proof {
            let after = entries.deep_view();
            assert(after =~= before.update(at as int, (k, v)));
            assert(increasing::<K, V>(after));
            lemma_entries_list::<K, V>(after);
            let updated = entries_map::<K, V>(after);
            assert forall|key: K::V| #[trigger] updated.contains_key(key) <==> map.insert(
                k,
                v,
            ).contains_key(key) by {
                if updated.contains_key(key) {
                    let i = choose|i: int| 0 <= i < after.len() && (#[trigger] after[i]).0 == key;
                    assert(before[i].0 == key);
                }
                if map.contains_key(key) {
                    let i = choose|i: int| 0 <= i < before.len() && (#[trigger] before[i]).0 == key;
                    assert(after[i].0 == key);
                }
            }
            assert forall|key: K::V| #[trigger] updated.contains_key(key) implies updated[key]
                == map.insert(k, v)[key] by {
                let i = choose|i: int| 0 <= i < after.len() && (#[trigger] after[i]).0 == key;
                assert(updated[after[i].0] == after[i].1);
                assert(map[before[i].0] == before[i].1);
                K::lemma_irreflexive(key);
                if i < at {
                    assert(K::before(after[i].0, after[at as int].0));
                } else if at < i {
                    assert(K::before(after[at as int].0, after[i].0));
                }
            }
            assert(updated =~= map.insert(k, v));
        }
        self.entries = entries;
        other
    }

    /// Takes a key and its value out.
    pub fn remove(&mut self, key: &K) -> (removed: Option<V>)
        ensures
            final(self).deep_view() == old(self).deep_view().remove(key.deep_view()),
            match removed {
                Some(prior) => old(self).deep_view().contains_key(key.deep_view())
                    && old(self).deep_view()[key.deep_view()] == prior.deep_view(),
                None => !old(self).deep_view().contains_key(key.deep_view()),
            },
    {
        proof {
            use_type_invariant(&*self);
            lemma_entries_list::<K, V>(self.entries.deep_view());
        }
        let ghost before = self.entries.deep_view();
        let ghost map = self.deep_view();
        let ghost k = key.deep_view();
        let (present, at) = self.locate(key);
        if !present {
            proof {
                if map.contains_key(k) {
                    let i = choose|i: int| 0 <= i < before.len() && (#[trigger] before[i]).0 == k;
                    K::lemma_irreflexive(k);
                }
                assert(map.remove(k) =~= map);
            }
            return None;
        }
        let mut entries: Vec<(K, V)> = Vec::new();
        std::mem::swap(&mut entries, &mut self.entries);
        let (_, prior) = entries.remove(at);
        proof {
            let after = entries.deep_view();
            assert(after =~= before.remove(at as int));
            assert(increasing::<K, V>(after));
            lemma_entries_list::<K, V>(after);
            let updated = entries_map::<K, V>(after);
            assert(map.contains_key(before[at as int].0));
            assert forall|key: K::V| #[trigger] updated.contains_key(key) <==> map.remove(
                k,
            ).contains_key(key) by {
                K::lemma_irreflexive(k);
                if updated.contains_key(key) {
                    let i = choose|i: int| 0 <= i < after.len() && (#[trigger] after[i]).0 == key;
                    if i < at {
                        assert(before[i].0 == key);
                        assert(K::before(before[i].0, before[at as int].0));
                    } else {
                        assert(before[i + 1].0 == key);
                        assert(K::before(before[at as int].0, before[i + 1].0));
                    }
                }
                if map.remove(k).contains_key(key) {
                    let i = choose|i: int| 0 <= i < before.len() && (#[trigger] before[i]).0 == key;
                    if i < at {
                        assert(after[i].0 == key);
                    } else {
                        assert(after[i - 1].0 == key);
                    }
                }
            }
            assert forall|key: K::V| #[trigger] updated.contains_key(key) implies updated[key]
                == map.remove(k)[key] by {
                let i = choose|i: int| 0 <= i < after.len() && (#[trigger] after[i]).0 == key;
                assert(updated[after[i].0] == after[i].1);
                if i < at {
                    assert(before[i] == after[i]);
                    assert(map[before[i].0] == before[i].1);
                } else {
                    assert(before[i + 1] == after[i]);
                    assert(map[before[i + 1].0] == before[i + 1].1);
                }
            }
            assert(updated =~= map.remove(k));
        }
        self.entries = entries;
        Some(prior)
    }
}

impl<K: Key, V: Plain> Table<K, V> {
    /// Takes over the entries of another table, which replace entries with the same keys.
    pub fn extend(&mut self, other: &Table<K, V>)
        ensures
            final(self).deep_view() == old(self).deep_view().union_prefer_right(other.deep_view()),
    {
        let ghost start = self.deep_view();
        let ghost more = other.deep_view();
        let ghost listing = ordered::<K, V::V>(more);
        let count = other.len();
        let mut index: usize = 0;
        while index < count
            invariant
                index <= count,
                count == listing.len(),
                more == other.deep_view(),
                listing == ordered::<K, V::V>(more),
                lists::<K, V::V>(listing, more),
                forall|key: K::V| #[trigger]
                    self.deep_view().contains_key(key) <==> start.contains_key(key) || is_listed::<
                        K,
                        V::V,
                    >(listing, index as int, key),
                forall|key: K::V| #[trigger]
                    self.deep_view().contains_key(key) ==> self.deep_view()[key] == (
                    if is_listed::<K, V::V>(listing, index as int, key) {
                        more[key]
                    } else {
                        start[key]
                    }),
            decreases count - index,
        {
            let ghost before = self.deep_view();
            let key = other.key_at(index).duplicate();
            let ghost k = key.deep_view();
            let ghost v = listing[index as int].1;
            self.insert(key, other.value_at(index).duplicate());
            proof {
                assert(more.contains_key(listing[index as int].0));
                assert forall|key: K::V| #[trigger]
                    is_listed::<K, V::V>(listing, index + 1, key) <==> (is_listed::<K, V::V>(
                        listing,
                        index as int,
                        key,
                    ) || key == k) by {
                    if key == k {
                        assert(listing[index as int].0 == key);
                    }
                }
                assert forall|key: K::V| #[trigger]
                    self.deep_view().contains_key(key) implies self.deep_view()[key] == (
                if is_listed::<K, V::V>(listing, index + 1, key) {
                    more[key]
                } else {
                    start[key]
                }) by {
                    if key != k {
                        assert(before.contains_key(key));
                    }
                }
            }
            index += 1;
        }
        proof {
            assert forall|key: K::V|
                more.contains_key(key) <==> #[trigger] is_listed::<K, V::V>(
                    listing,
                    listing.len() as int,
                    key,
                ) by {
                if is_listed::<K, V::V>(listing, listing.len() as int, key) {
                    let i = choose|i: int| 0 <= i < listing.len() && (#[trigger] listing[i]).0 == key;
                    assert(more.contains_key(listing[i].0));
                }
            }
            assert(self.deep_view() =~= start.union_prefer_right(more));
        }
    }

    /// Takes out the entries with the given keys.
    pub fn remove_all(&mut self, keys: &Table<K, ()>)
        ensures
            final(self).deep_view() == old(self).deep_view().remove_keys(keys.deep_view().dom()),
    {
        let ghost start = self.deep_view();
        let ghost gone = keys.deep_view();
        let ghost listing = ordered::<K, ()>(gone);
        let count = keys.len();
        let mut index: usize = 0;
        while index < count
            invariant
                index <= count,
                count == listing.len(),
                gone == keys.deep_view(),
                listing == ordered::<K, ()>(gone),
                lists::<K, ()>(listing, gone),
                forall|key: K::V| #[trigger]
                    self.deep_view().contains_key(key) <==> start.contains_key(key) && !is_listed::<
                        K,
                        (),
                    >(listing, index as int, key),
                forall|key: K::V| #[trigger]
                    self.deep_view().contains_key(key) ==> self.deep_view()[key] == start[key],
            decreases count - index,
        {
            let ghost before = self.deep_view();
            let key = keys.key_at(index);
            let ghost k = key.deep_view();
            let _ = self.remove(key);
            proof {
                assert forall|key: K::V| #[trigger]
                    is_listed::<K, ()>(listing, index + 1, key) <==> (is_listed::<K, ()>(
                        listing,
                        index as int,
                        key,
                    ) || key == k) by {
                    if key == k {
                        assert(listing[index as int].0 == key);
                    }
                }
                assert forall|key: K::V| #[trigger]
                    self.deep_view().contains_key(key) implies self.deep_view()[key] == start[key] by {
                    assert(before.contains_key(key));
                }
            }
            index += 1;
        }
        proof {
            assert forall|key: K::V|
                gone.contains_key(key) <==> #[trigger] is_listed::<K, ()>(
                    listing,
                    listing.len() as int,
                    key,
                ) by {
                if is_listed::<K, ()>(listing, listing.len() as int, key) {
                    let i = choose|i: int| 0 <= i < listing.len() && (#[trigger] listing[i]).0 == key;
                    assert(gone.contains_key(listing[i].0));
                }
            }
            assert(self.deep_view() =~= start.remove_keys(gone.dom()));
        }
    }
}

impl<K: Key, V: Plain> Plain for Table<K, V> {
    fn duplicate(&self) -> (copy: Self) {
        proof {
            use_type_invariant(self);
        }
        Table { entries: self.entries.duplicate() }
    }

    fn same(&self, other: &Self) -> (equal: bool) {
        proof {
            use_type_invariant(self);
            use_type_invariant(other);
            lemma_entries_list::<K, V>(self.entries.deep_view());
            lemma_entries_list::<K, V>(other.entries.deep_view());
        }
        self.entries.same(&other.entries)
    }
}

} // verus!
