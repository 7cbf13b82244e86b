//! Stable sorting by rank and removal of adjacent repetitions.

use vstd::prelude::*;

use crate::order::{Key, Place};
use crate::plain::Plain;

verus! {

/// A plain value that is sorted by a rank computed from its content.
pub trait Ranked: Plain {
    type Rank: Key;

    spec fn rank(value: Self::V) -> <Self::Rank as DeepView>::V;

    fn place_by_rank(&self, other: &Self) -> (place: Place)
        ensures
            match place {
                Place::Before => Self::Rank::before(
                    Self::rank(self.deep_view()),
                    Self::rank(other.deep_view()),
                ),
                Place::Same => Self::rank(self.deep_view()) == Self::rank(other.deep_view()),
                Place::After => Self::Rank::before(
                    Self::rank(other.deep_view()),
                    Self::rank(self.deep_view()),
                ),
            },
    ;
}

impl<T: Key> Ranked for T {
    type Rank = T;

    open spec fn rank(value: T::V) -> T::V {
        value
    }

    fn place_by_rank(&self, other: &Self) -> (place: Place) {
        self.place(other)
    }
}

/// Whether the first value ranks strictly before the second.
pub open spec fn ranks_before<T: Ranked>(left: T::V, right: T::V) -> bool {
    T::Rank::before(T::rank(left), T::rank(right))
}

/// Places a value behind every value that does not rank after it.
pub open spec fn insert_ranked<T: Ranked>(sorted: Seq<T::V>, value: T::V) -> Seq<T::V>
    decreases sorted.len(),
{
    if sorted.len() > 0 && ranks_before::<T>(value, sorted.last()) {
        insert_ranked::<T>(sorted.drop_last(), value).push(sorted.last())
    } else {
        sorted.push(value)
    }
}

/// The values in order of rank; values of one rank keep the order they came in.
pub open spec fn stable_sorted<T: Ranked>(values: Seq<T::V>) -> Seq<T::V>
    decreases values.len(),
{
    if values.len() == 0 {
        values
    } else {
        insert_ranked::<T>(stable_sorted::<T>(values.drop_last()), values.last())
    }
}

/// Whether no value ranks before one that precedes it.
pub open spec fn is_ranked<T: Ranked>(values: Seq<T::V>) -> bool {
    forall|i: int, j: int|
        0 <= i < j < values.len() ==> !ranks_before::<T>(
            #[trigger] values[j],
            #[trigger] values[i],
        )
}

proof fn lemma_not_before_transitive<T: Ranked>(first: T::V, second: T::V, third: T::V)
    requires
        !ranks_before::<T>(second, first),
        !ranks_before::<T>(third, second),
    ensures
        !ranks_before::<T>(third, first),
{
    let (a, b, c) = (T::rank(first), T::rank(second), T::rank(third));
    T::Rank::lemma_total(a, b);
    T::Rank::lemma_total(b, c);
    if T::Rank::before(c, a) {
        if T::Rank::before(a, b) {
            T::Rank::lemma_transitive(c, a, b);
        } else {
            assert(T::Rank::before(c, b));
        }
    }
}

proof fn lemma_before_extends<T: Ranked>(value: T::V, first: T::V, second: T::V)
    requires
        ranks_before::<T>(value, first),
        !ranks_before::<T>(second, first),
    ensures
        ranks_before::<T>(value, second),
{
    let (v, a, b) = (T::rank(value), T::rank(first), T::rank(second));
    T::Rank::lemma_total(a, b);
    if T::Rank::before(a, b) {
        T::Rank::lemma_transitive(v, a, b);
    }
}

/// An insertion point splits a ranked sequence where `insert_ranked` does.
proof fn lemma_insert_ranked_at<T: Ranked>(sorted: Seq<T::V>, value: T::V, at: int)
    requires
        0 <= at <= sorted.len(),
        forall|i: int| 0 <= i < at ==> !ranks_before::<T>(value, #[trigger] sorted[i]),
        forall|i: int| at <= i < sorted.len() ==> ranks_before::<T>(value, #[trigger] sorted[i]),
    ensures
        insert_ranked::<T>(sorted, value) == sorted.insert(at, value),
    decreases sorted.len(),
{
    if sorted.len() > 0 && ranks_before::<T>(value, sorted.last()) {
        lemma_insert_ranked_at::<T>(sorted.drop_last(), value, at);
        assert(sorted.drop_last().insert(at, value).push(sorted.last()) =~= sorted.insert(
            at,
            value,
        ));
    } else {
        assert(at == sorted.len());
        assert(sorted.push(value) =~= sorted.insert(at, value));
    }
}

proof fn lemma_insert_ranked_keeps<T: Ranked>(sorted: Seq<T::V>, value: T::V)
    requires
        is_ranked::<T>(sorted),
    ensures
        is_ranked::<T>(insert_ranked::<T>(sorted, value)),
        insert_ranked::<T>(sorted, value).len() == sorted.len() + 1,
        insert_ranked::<T>(sorted, value).to_multiset() == sorted.to_multiset().insert(value),
        forall|i: int|
            0 <= i <= sorted.len() ==> (#[trigger] insert_ranked::<T>(sorted, value)[i] == value
                || sorted.contains(insert_ranked::<T>(sorted, value)[i])),
    decreases sorted.len(),
{
    broadcast use vstd::seq_lib::group_to_multiset_ensures;

    let result = insert_ranked::<T>(sorted, value);
    if sorted.len() > 0 && ranks_before::<T>(value, sorted.last()) {
        let shorter = sorted.drop_last();
        lemma_insert_ranked_keeps::<T>(shorter, value);
        let inner = insert_ranked::<T>(shorter, value);
        assert forall|i: int, j: int| 0 <= i < j < result.len() implies !ranks_before::<T>(
            #[trigger] result[j],
            #[trigger] result[i],
        ) by {
            if j == result.len() - 1 {
                assert(result[j] == sorted.last());
                assert(result[i] == inner[i]);
                if inner[i] == value {
                    T::Rank::lemma_irreflexive(T::rank(value));
                    if ranks_before::<T>(sorted.last(), value) {
                        T::Rank::lemma_transitive(
                            T::rank(value),
                            T::rank(sorted.last()),
                            T::rank(value),
                        );
                    }
                } else {
                    let k = choose|k: int| 0 <= k < shorter.len() && shorter[k] == inner[i];
                    assert(sorted[k] == inner[i]);
                }
            } else {
                assert(result[j] == inner[j]);
                assert(result[i] == inner[i]);
            }
        }
        assert(sorted =~= shorter.push(sorted.last()));
        assert(result.to_multiset() =~= sorted.to_multiset().insert(value));
        assert forall|i: int| 0 <= i <= sorted.len() implies (#[trigger] result[i] == value
            || sorted.contains(result[i])) by {
            if i < sorted.len() {
                assert(result[i] == inner[i]);
                if inner[i] != value {
                    let k = choose|k: int| 0 <= k < shorter.len() && shorter[k] == inner[i];
                    assert(sorted[k] == inner[i]);
                }
            } else {
                assert(result[i] == sorted[sorted.len() - 1]);
            }
        }
    } else {
        assert forall|i: int, j: int| 0 <= i < j < result.len() implies !ranks_before::<T>(
            #[trigger] result[j],
            #[trigger] result[i],
        ) by {
            if j == sorted.len() && i < sorted.len() - 1 {
                assert(!ranks_before::<T>(sorted[sorted.len() - 1], sorted[i]));
                lemma_not_before_transitive::<T>(sorted[i], sorted.last(), value);
            }
        }
        assert forall|i: int| 0 <= i <= sorted.len() implies (#[trigger] result[i] == value
            || sorted.contains(result[i])) by {
            if i < sorted.len() {
                assert(result[i] == sorted[i]);
            }
        }
    }
}

/// Sorting yields the same values, none of which ranks before one that precedes it.
pub proof fn lemma_stable_sorted<T: Ranked>(values: Seq<T::V>)
    ensures
        is_ranked::<T>(stable_sorted::<T>(values)),
        stable_sorted::<T>(values).len() == values.len(),
        stable_sorted::<T>(values).to_multiset() == values.to_multiset(),
    decreases values.len(),
{
    broadcast use vstd::seq_lib::group_to_multiset_ensures;

    if values.len() > 0 {
        lemma_stable_sorted::<T>(values.drop_last());
        lemma_insert_ranked_keeps::<T>(stable_sorted::<T>(values.drop_last()), values.last());
        assert(values =~= values.drop_last().push(values.last()));
    }
}

/// A total order leaves one way to sort a collection of values.
pub proof fn lemma_sorted_unique<K: Key>(left: Seq<K::V>, right: Seq<K::V>)
    requires
        is_ranked::<K>(left),
        is_ranked::<K>(right),
        left.to_multiset() == right.to_multiset(),
    ensures
        left == right,
    decreases left.len(),
{
    broadcast use vstd::seq_lib::group_to_multiset_ensures;

    vstd::seq_lib::to_multiset_len(left);
    vstd::seq_lib::to_multiset_len(right);
    if left.len() == 0 {
        assert(left =~= right);
    } else {
        let l = left.last();
        let r = right.last();
        assert(left[left.len() - 1] == l);
        assert(right[right.len() - 1] == r);
        assert(left.contains(l));
        assert(right.contains(r));
        assert(right.to_multiset().count(l) > 0);
        assert(left.to_multiset().count(r) > 0);
        assert(right.contains(l));
        assert(left.contains(r));
        let i = choose|i: int| 0 <= i < right.len() && right[i] == l;
        let j = choose|j: int| 0 <= j < left.len() && left[j] == r;
        K::lemma_total(l, r);
        if i < right.len() - 1 {
            assert(!ranks_before::<K>(right[right.len() - 1], right[i]));
        }
        if j < left.len() - 1 {
            assert(!ranks_before::<K>(left[left.len() - 1], left[j]));
        }
        assert(l == r);
        assert(left =~= left.drop_last().push(l));
        assert(right =~= right.drop_last().push(r));
        assert(left.drop_last().to_multiset() =~= left.to_multiset().remove(l));
        assert(right.drop_last().to_multiset() =~= right.to_multiset().remove(r));
        lemma_sorted_unique::<K>(left.drop_last(), right.drop_last());
    }
}

/// A sorted sequence holds what the sequence it was made from holds.
pub proof fn lemma_stable_sorted_contains<T: Ranked>(values: Seq<T::V>, value: T::V)
    ensures
        stable_sorted::<T>(values).contains(value) <==> values.contains(value),
{
    broadcast use vstd::seq_lib::group_to_multiset_ensures;

    lemma_stable_sorted::<T>(values);
    assert(stable_sorted::<T>(values).to_multiset().count(value) == values.to_multiset().count(
        value,
    ));
}

/// Finds where a value belongs behind all values that do not rank after it.
fn insertion_point<T: Ranked>(values: &Vec<T>, end: usize, value: &T) -> (at: usize)
    requires
        end <= values.len(),
        is_ranked::<T>(values.deep_view().take(end as int)),
    ensures
        at <= end,
        forall|i: int|
            0 <= i < at ==> !ranks_before::<T>(value.deep_view(), #[trigger] values.deep_view()[i]),
        forall|i: int|
            at <= i < end ==> ranks_before::<T>(value.deep_view(), #[trigger] values.deep_view()[i]),
{
    let ghost all = values.deep_view();
    let ghost sorted = all.take(end as int);
    let mut low: usize = 0;
    let mut high: usize = end;
    while low < high
        invariant
            low <= high <= end <= values.len(),
            all == values.deep_view(),
            sorted == all.take(end as int),
            is_ranked::<T>(sorted),
            forall|i: int| 0 <= i < low ==> !ranks_before::<T>(value.deep_view(), #[trigger] all[i]),
            forall|i: int|
                high <= i < end ==> ranks_before::<T>(value.deep_view(), #[trigger] all[i]),
        decreases high - low,
    {
        let middle: usize = low + (high - low) / 2;
        let place = value.place_by_rank(&values[middle]);
        assert(all[middle as int] == values@[middle as int].deep_view());
        assert(sorted[middle as int] == all[middle as int]);
        if place == Place::Before {
            proof {
                assert forall|i: int| middle <= i < end implies ranks_before::<T>(
                    value.deep_view(),
                    #[trigger] all[i],
                ) by {
                    assert(sorted[i] == all[i]);
                    if i > middle {
                        lemma_before_extends::<T>(value.deep_view(), all[middle as int], all[i]);
                    }
                }
            }
            high = middle;
        } else {
            proof {
                let v = value.deep_view();
                let m = all[middle as int];
                assert(!ranks_before::<T>(v, m)) by {
                    T::Rank::lemma_irreflexive(T::rank(m));
                    if ranks_before::<T>(v, m) && ranks_before::<T>(m, v) {
                        T::Rank::lemma_transitive(T::rank(m), T::rank(v), T::rank(m));
                    }
                }
                assert forall|i: int| 0 <= i <= middle implies !ranks_before::<T>(
                    v,
                    #[trigger] all[i],
                ) by {
                    assert(sorted[i] == all[i]);
                    if i < middle {
                        lemma_not_before_transitive::<T>(all[i], m, v);
                    }
                }
            }
            low = middle + 1;
        }
    }
    low
}

/// Sorts the values by rank, keeping the order of values of one rank.
pub fn stable_sort<T: Ranked>(values: &mut Vec<T>)
    ensures
        final(values).deep_view() == stable_sorted::<T>(old(values).deep_view()),
{
    let ghost start = values.deep_view();
    let mut done: usize = 0;
    assert(start.take(0) =~= Seq::<T::V>::empty());
    assert(values.deep_view().take(0) =~= Seq::<T::V>::empty());
    while done < values.len()
        invariant
            done <= values.len(),
            values.len() == start.len(),
            values.deep_view().take(done as int) == stable_sorted::<T>(start.take(done as int)),
            values.deep_view().skip(done as int) == start.skip(done as int),
        decreases values.len() - done,
    {
        let ghost before = values.deep_view();
        let ghost sorted = before.take(done as int);
        proof {
            lemma_stable_sorted::<T>(start.take(done as int));
        }
        let at = insertion_point(values, done, &values[done]);
        if at < done {
            let value = values.remove(done);
            values.insert(at, value);
        }
        proof {
            let value = before[done as int];
            assert(value == before.skip(done as int)[0]);
            assert(value == start[done as int]) by {
                assert(start.skip(done as int)[0] == start[done as int]);
            }
            assert forall|i: int| 0 <= i < at implies !ranks_before::<T>(
                value,
                #[trigger] sorted[i],
            ) by {
                assert(sorted[i] == before[i]);
            }
            assert forall|i: int| at <= i < sorted.len() implies ranks_before::<T>(
                value,
                #[trigger] sorted[i],
            ) by {
                assert(sorted[i] == before[i]);
            }
            lemma_insert_ranked_at::<T>(sorted, value, at as int);
            let longer = start.take(done + 1);
            assert(longer.drop_last() =~= start.take(done as int));
            assert(longer.last() == value);
            assert(values.deep_view() =~= before.remove(done as int).insert(at as int, value));
            assert(values.deep_view().take(done + 1) =~= sorted.insert(at as int, value));
            assert forall|i: int| 0 <= i < start.len() - done - 1 implies (#[trigger] values.deep_view().skip(
                done + 1,
            )[i]) == start.skip(done + 1)[i] by {
                assert(before.skip(done as int)[i + 1] == start.skip(done as int)[i + 1]);
            }
            assert(values.deep_view().skip(done + 1) =~= start.skip(done + 1));
        }
        done += 1;
    }
    assert(values.deep_view().take(done as int) =~= values.deep_view());
    assert(start.take(done as int) =~= start);
}

/// A plain value of which adjacent repetitions are dropped.
pub trait Repeatable: Plain {
    /// Whether the second value repeats the first.
    spec fn repeats(kept: Self::V, next: Self::V) -> bool;

    fn is_repeated_by(&self, next: &Self) -> (repeated: bool)
        ensures
            repeated == Self::repeats(self.deep_view(), next.deep_view()),
    ;
}

impl Repeatable for String {
    open spec fn repeats(kept: Seq<char>, next: Seq<char>) -> bool {
        kept == next
    }

    fn is_repeated_by(&self, next: &Self) -> (repeated: bool) {
        *self == *next
    }
}

/// The values without those that repeat the value kept before them.
pub open spec fn without_repeats<T: Repeatable>(values: Seq<T::V>) -> Seq<T::V>
    decreases values.len(),
{
    if values.len() == 0 {
        values
    } else {
        let kept = without_repeats::<T>(values.drop_last());
        if kept.len() > 0 && T::repeats(kept.last(), values.last()) {
            kept
        } else {
            kept.push(values.last())
        }
    }
}

/// Drops every value that repeats the value kept before it.
pub fn drop_repeats<T: Repeatable>(values: &mut Vec<T>)
    ensures
        final(values).deep_view() == without_repeats::<T>(old(values).deep_view()),
{
    let ghost start = values.deep_view();
    let ghost mut seen: int = 0;
    let mut kept: usize = 0;
    assert(start.take(0) =~= Seq::<T::V>::empty());
    assert(values.deep_view().take(0) =~= Seq::<T::V>::empty());
    while kept < values.len()
        invariant
            0 <= kept <= seen <= start.len(),
            values.len() - kept == start.len() - seen,
            values.deep_view().take(kept as int) == without_repeats::<T>(start.take(seen)),
            values.deep_view().skip(kept as int) == start.skip(seen),
        decreases values.len() - kept,
    {
        let ghost before = values.deep_view();
        let ghost prefix = before.take(kept as int);
        proof {
            assert(before.skip(kept as int)[0] == before[kept as int]);
            assert(start.skip(seen)[0] == start[seen]);
            assert(start.take(seen + 1).drop_last() =~= start.take(seen));
            assert(start.take(seen + 1).last() == start[seen]);
            assert(before.skip(kept as int).drop_first() =~= before.skip(kept + 1));
            assert(start.skip(seen).drop_first() =~= start.skip(seen + 1));
        }
        if kept > 0 && values[kept - 1].is_repeated_by(&values[kept]) {
            assert(prefix.last() == before[kept - 1]);
            values.remove(kept);
            assert(values.deep_view() =~= before.remove(kept as int));
            assert(values.deep_view().take(kept as int) =~= prefix);
            assert(values.deep_view().skip(kept as int) =~= before.skip(kept + 1));
        } else {
            assert(kept > 0 ==> prefix.last() == before[kept - 1]);
            kept += 1;
            assert(values.deep_view().take(kept as int) =~= prefix.push(start[seen]));
        }
        proof {
            seen = seen + 1;
        }
    }
    assert(values.deep_view().take(kept as int) =~= values.deep_view());
    assert(start.take(seen) =~= start);
}

/// Dropping repetitions drops no value that is not kept elsewhere.
pub proof fn lemma_without_repeats_contains<T: Repeatable>(values: Seq<T::V>, value: T::V)
    requires
        forall|kept: T::V, next: T::V| #[trigger] T::repeats(kept, next) <==> kept == next,
    ensures
        without_repeats::<T>(values).contains(value) <==> values.contains(value),
        values.len() > 0 ==> without_repeats::<T>(values).len() > 0 && without_repeats::<
            T,
        >(values).last() == values.last(),
    decreases values.len(),
{
    if values.len() > 0 {
        lemma_without_repeats_contains::<T>(values.drop_last(), value);
        let kept = without_repeats::<T>(values.drop_last());
        let all = without_repeats::<T>(values);
        assert(values =~= values.drop_last().push(values.last()));
        if kept.len() > 0 && kept.last() == values.last() {
            if values.contains(value) && !values.drop_last().contains(value) {
                assert(value == values.last());
                assert(kept[kept.len() - 1] == value);
            }
            if kept.contains(value) {
                let i = choose|i: int| 0 <= i < values.drop_last().len() && values.drop_last()[i]
                    == value;
                assert(values[i] == value);
            }
        } else {
            if values.contains(value) {
                if values.drop_last().contains(value) {
                    let i = choose|i: int| 0 <= i < kept.len() && kept[i] == value;
                    assert(all[i] == value);
                } else {
                    assert(all[all.len() - 1] == value);
                }
            }
            if all.contains(value) {
                let i = choose|i: int| 0 <= i < all.len() && all[i] == value;
                if i < kept.len() {
                    assert(kept[i] == value);
                    let j = choose|j: int| 0 <= j < values.drop_last().len()
                        && values.drop_last()[j] == value;
                    assert(values[j] == value);
                } else {
                    assert(values[values.len() - 1] == value);
                }
            }
        }
    }
}

/// Dropping repetitions keeps the order, adds nothing, and leaves no value that repeats the one
/// before it.
pub proof fn lemma_neighbours_differ<T: Ranked + Repeatable>(values: Seq<T::V>)
    requires
        is_ranked::<T>(values),
    ensures
        is_ranked::<T>(without_repeats::<T>(values)),
        forall|i: int|
            0 <= i < without_repeats::<T>(values).len() ==> values.contains(
                #[trigger] without_repeats::<T>(values)[i],
            ),
        forall|i: int, j: int|
            0 <= i && j == i + 1 && j < without_repeats::<T>(values).len() ==> !T::repeats(
                #[trigger] without_repeats::<T>(values)[i],
                #[trigger] without_repeats::<T>(values)[j],
            ),
    decreases values.len(),
{
    if values.len() > 0 {
        let shorter = values.drop_last();
        assert forall|i: int, j: int| 0 <= i < j < shorter.len() implies !ranks_before::<T>(
            #[trigger] shorter[j],
            #[trigger] shorter[i],
        ) by {
            assert(shorter[i] == values[i] && shorter[j] == values[j]);
        }
        lemma_neighbours_differ::<T>(shorter);
        let kept = without_repeats::<T>(shorter);
        let all = without_repeats::<T>(values);
        let top = values.len() - 1;
        assert forall|i: int| 0 <= i < all.len() implies values.contains(#[trigger] all[i]) by {
            if i < kept.len() {
                assert(all[i] == kept[i]);
                let at = choose|at: int| 0 <= at < shorter.len() && shorter[at] == kept[i];
                assert(values[at] == all[i]);
            } else {
                assert(values[top] == all[i]);
            }
        }
        assert forall|i: int, j: int| 0 <= i < j < all.len() implies !ranks_before::<T>(
            #[trigger] all[j],
            #[trigger] all[i],
        ) by {
            assert(all[i] == kept[i]);
            if j < kept.len() {
                assert(all[j] == kept[j]);
            } else {
                let at = choose|at: int| 0 <= at < shorter.len() && shorter[at] == kept[i];
                assert(values[at] == kept[i] && values[top] == all[j]);
            }
        }
        assert forall|i: int, j: int|
            0 <= i && j == i + 1 && j < all.len() implies !T::repeats(
            #[trigger] all[i],
            #[trigger] all[j],
        ) by {
            assert(all[i] == kept[i]);
            if j < kept.len() {
                assert(all[j] == kept[j]);
            }
        }
    }
}

/// The distinct texts, in order.
pub open spec fn distinct_sorted(values: Seq<Seq<char>>) -> Seq<Seq<char>> {
    without_repeats::<String>(stable_sorted::<String>(values))
}

/// Where values repeat each other exactly if they have one rank, dropping the repetitions of ranked
/// values leaves strictly increasing ranks.
pub proof fn lemma_repeats_dropped<T: Ranked + Repeatable>(values: Seq<T::V>)
    requires
        is_ranked::<T>(values),
        forall|kept: T::V, next: T::V| #[trigger]
            T::repeats(kept, next) <==> T::rank(kept) == T::rank(next),
    ensures
        forall|i: int, j: int|
            0 <= i < j < without_repeats::<T>(values).len() ==> ranks_before::<T>(
                #[trigger] without_repeats::<T>(values)[i],
                #[trigger] without_repeats::<T>(values)[j],
            ),
        values.len() > 0 ==> without_repeats::<T>(values).len() > 0 && T::rank(
            without_repeats::<T>(values).last(),
        ) == T::rank(values.last()),
    decreases values.len(),
{
    if values.len() > 0 {
        let shorter = values.drop_last();
        assert forall|i: int, j: int| 0 <= i < j < shorter.len() implies !ranks_before::<T>(
            #[trigger] shorter[j],
            #[trigger] shorter[i],
        ) by {
            assert(shorter[i] == values[i] && shorter[j] == values[j]);
        }
        lemma_repeats_dropped::<T>(shorter);
        let kept = without_repeats::<T>(shorter);
        let all = without_repeats::<T>(values);
        let last = T::rank(values.last());
        if kept.len() > 0 && !T::repeats(kept.last(), values.last()) {
            let top = T::rank(kept.last());
            if shorter.len() > 0 {
                assert(!ranks_before::<T>(values[values.len() - 1], values[values.len() - 2]));
                assert(shorter.last() == values[values.len() - 2]);
            }
            T::Rank::lemma_total(top, last);
            assert forall|i: int, j: int| 0 <= i < j < all.len() implies ranks_before::<T>(
                #[trigger] all[i],
                #[trigger] all[j],
            ) by {
                if j == kept.len() {
                    if i < kept.len() - 1 {
                        assert(ranks_before::<T>(kept[i], kept[kept.len() - 1]));
                        T::Rank::lemma_transitive(T::rank(kept[i]), top, last);
                    } else {
                        assert(all[i] == kept.last());
                    }
                } else {
                    assert(all[i] == kept[i] && all[j] == kept[j]);
                }
            }
        }
    }
}

/// Sorting and dropping repetitions leaves each text once, in strictly increasing order.
pub proof fn lemma_distinct_sorted(values: Seq<Seq<char>>)
    ensures
        forall|i: int, j: int|
            0 <= i < j < distinct_sorted(values).len() ==> <String as Key>::before(
                #[trigger] distinct_sorted(values)[i],
                #[trigger] distinct_sorted(values)[j],
            ),
        forall|value: Seq<char>| #[trigger]
            distinct_sorted(values).contains(value) <==> values.contains(value),
{
    lemma_stable_sorted::<String>(values);
    lemma_repeats_dropped::<String>(stable_sorted::<String>(values));
    assert forall|i: int, j: int|
        0 <= i < j < distinct_sorted(values).len() implies <String as Key>::before(
        #[trigger] distinct_sorted(values)[i],
        #[trigger] distinct_sorted(values)[j],
    ) by {
        assert(ranks_before::<String>(distinct_sorted(values)[i], distinct_sorted(values)[j]));
    }
    assert forall|value: Seq<char>| #[trigger]
        distinct_sorted(values).contains(value) <==> values.contains(value) by {
        lemma_without_repeats_contains::<String>(stable_sorted::<String>(values), value);
        lemma_stable_sorted_contains::<String>(values, value);
    }
}

/// What is left once texts are sorted and repetitions are dropped depends only on which texts there
/// are, not on their order nor on how often each comes.
pub proof fn lemma_distinct_sorted_members(left: Seq<Seq<char>>, right: Seq<Seq<char>>)
    requires
        forall|value: Seq<char>| #[trigger] left.contains(value) <==> right.contains(value),
    ensures
        distinct_sorted(left) == distinct_sorted(right),
{
    broadcast use vstd::seq_lib::group_to_multiset_ensures;

    let one = distinct_sorted(left);
    let other = distinct_sorted(right);
    lemma_distinct_sorted(left);
    lemma_distinct_sorted(right);
    lemma_increasing_distinct(one);
    lemma_increasing_distinct(other);
    assert forall|value: Seq<char>| one.to_multiset().count(value) == other.to_multiset().count(
        value,
    ) by {
        assert(one.contains(value) <==> left.contains(value));
        assert(other.contains(value) <==> right.contains(value));
        if one.to_multiset().contains(value) {
            assert(one.contains(value));
        }
        if other.to_multiset().contains(value) {
            assert(other.contains(value));
        }
    }
    assert(one.to_multiset() =~= other.to_multiset());
    lemma_sorted_unique::<String>(one, other);
}

/// Texts in strictly increasing order are ranked, and none of them comes twice.
proof fn lemma_increasing_distinct(values: Seq<Seq<char>>)
    requires
        forall|i: int, j: int|
            0 <= i < j < values.len() ==> <String as Key>::before(
                #[trigger] values[i],
                #[trigger] values[j],
            ),
    ensures
        is_ranked::<String>(values),
        forall|value: Seq<char>|
            values.to_multiset().contains(value) ==> #[trigger] values.to_multiset().count(value)
                == 1,
{
    assert forall|i: int, j: int| 0 <= i < j < values.len() implies !ranks_before::<String>(
        #[trigger] values[j],
        #[trigger] values[i],
    ) by {
        <String as Key>::lemma_transitive(values[i], values[j], values[i]);
        <String as Key>::lemma_irreflexive(values[i]);
    }
    assert forall|i: int, j: int|
        0 <= i < values.len() && 0 <= j < values.len() && i != j implies values[i]
        != values[j] by {
        <String as Key>::lemma_irreflexive(values[i]);
    }
    values.lemma_multiset_has_no_duplicates();
}

/// Sorts the texts and leaves each of them once.
pub fn sort_distinct(values: &mut Vec<String>)
    ensures
        final(values).deep_view() == distinct_sorted(old(values).deep_view()),
{
    stable_sort(values);
    drop_repeats(values);
}

} // verus!
