//! Total orders on plain values, and stable sorting.

use vstd::prelude::*;
use vstd::utf8::encode_utf8;

use crate::plain::Plain;

verus! {

/// Where one value stands relative to another.
#[derive(Debug, Clone, Copy, PartialEq, Eq, Structural)]
pub enum Place {
    Before,
    Same,
    After,
}

/// A plain value with a strict total order on its content.
pub trait Key: Plain {
    spec fn before(left: Self::V, right: Self::V) -> bool;

    proof fn lemma_irreflexive(value: Self::V)
        ensures
            !Self::before(value, value),
    ;

    proof fn lemma_transitive(first: Self::V, second: Self::V, third: Self::V)
        ensures
            Self::before(first, second) && Self::before(second, third) ==> Self::before(
                first,
                third,
            ),
    ;

    proof fn lemma_total(left: Self::V, right: Self::V)
        ensures
            left == right || Self::before(left, right) || Self::before(right, left),
    ;

    fn place(&self, other: &Self) -> (place: Place)
        ensures
            match place {
                Place::Before => Self::before(self.deep_view(), other.deep_view()),
                Place::Same => self.deep_view() == other.deep_view(),
                Place::After => Self::before(other.deep_view(), self.deep_view()),
            },
    ;
}

impl Key for bool {
    open spec fn before(left: bool, right: bool) -> bool {
        !left && right
    }

    proof fn lemma_irreflexive(value: bool) {
    }

    proof fn lemma_transitive(first: bool, second: bool, third: bool) {
    }

    proof fn lemma_total(left: bool, right: bool) {
    }

    fn place(&self, other: &Self) -> (place: Place) {
        assert(Self::before(*self, *other) == (!*self && *other));
        if *self == *other {
            Place::Same
        } else if *other {
            Place::Before
        } else {
            Place::After
        }
    }
}

impl Key for u8 {
    open spec fn before(left: u8, right: u8) -> bool {
        left < right
    }

    proof fn lemma_irreflexive(value: u8) {
    }

    proof fn lemma_transitive(first: u8, second: u8, third: u8) {
    }

    proof fn lemma_total(left: u8, right: u8) {
    }

    fn place(&self, other: &Self) -> (place: Place) {
        assert(Self::before(*self, *other) == (*self < *other));
        if *self < *other {
            Place::Before
        } else if *other < *self {
            Place::After
        } else {
            Place::Same
        }
    }
}

impl Key for u32 {
    open spec fn before(left: u32, right: u32) -> bool {
        left < right
    }

    proof fn lemma_irreflexive(value: u32) {
    }

    proof fn lemma_transitive(first: u32, second: u32, third: u32) {
    }

    proof fn lemma_total(left: u32, right: u32) {
    }

    fn place(&self, other: &Self) -> (place: Place) {
        assert(Self::before(*self, *other) == (*self < *other));
        if *self < *other {
            Place::Before
        } else if *other < *self {
            Place::After
        } else {
            Place::Same
        }
    }
}

/// `None` precedes every `Some`.
pub open spec fn option_before<T: Key>(left: Option<T::V>, right: Option<T::V>) -> bool {
    match (left, right) {
        (None, Some(_)) => true,
        (Some(l), Some(r)) => T::before(l, r),
        _ => false,
    }
}

impl<T: Key> Key for Option<T> {
    open spec fn before(left: Option<T::V>, right: Option<T::V>) -> bool {
        option_before::<T>(left, right)
    }

    proof fn lemma_irreflexive(value: Option<T::V>) {
        if value is Some {
            T::lemma_irreflexive(value->0);
        }
    }

    proof fn lemma_transitive(first: Option<T::V>, second: Option<T::V>, third: Option<T::V>) {
        if first is Some {
            T::lemma_transitive(first->0, second->0, third->0);
        }
    }

    proof fn lemma_total(left: Option<T::V>, right: Option<T::V>) {
        if left is Some && right is Some {
            T::lemma_total(left->0, right->0);
        }
    }

    fn place(&self, other: &Self) -> (place: Place) {
        assert(Self::before(self.deep_view(), other.deep_view()) == option_before::<T>(
            self.deep_view(),
            other.deep_view(),
        ));
        match (self, other) {
            (Some(left), Some(right)) => left.place(right),
            (None, Some(_)) => Place::Before,
            (Some(_), None) => Place::After,
            (None, None) => Place::Same,
        }
    }
}

/// The first components decide; the second ones decide between equal first ones.
pub open spec fn pair_before<A: Key, B: Key>(left: (A::V, B::V), right: (A::V, B::V)) -> bool {
    A::before(left.0, right.0) || (left.0 == right.0 && B::before(left.1, right.1))
}

impl<A: Key, B: Key> Key for (A, B) {
    open spec fn before(left: (A::V, B::V), right: (A::V, B::V)) -> bool {
        pair_before::<A, B>(left, right)
    }

    proof fn lemma_irreflexive(value: (A::V, B::V)) {
        A::lemma_irreflexive(value.0);
        B::lemma_irreflexive(value.1);
    }

    proof fn lemma_transitive(
        first: (A::V, B::V),
        second: (A::V, B::V),
        third: (A::V, B::V),
    ) {
        if A::before(first.0, second.0) && A::before(second.0, third.0) {
            A::lemma_transitive(first.0, second.0, third.0);
        }
        if B::before(first.1, second.1) && B::before(second.1, third.1) {
            B::lemma_transitive(first.1, second.1, third.1);
        }
    }

    proof fn lemma_total(left: (A::V, B::V), right: (A::V, B::V)) {
        A::lemma_total(left.0, right.0);
        B::lemma_total(left.1, right.1);
    }

    fn place(&self, other: &Self) -> (place: Place) {
        match self.0.place(&other.0) {
            Place::Same => self.1.place(&other.1),
            decided => decided,
        }
    }
}

/// Lexicographic order: a proper prefix precedes what extends it.
pub open spec fn lexicographic<T: Key>(left: Seq<T::V>, right: Seq<T::V>) -> bool
    decreases left.len(),
{
    right.len() > 0 && (left.len() == 0 || T::before(left[0], right[0]) || (left[0] == right[0]
        && lexicographic::<T>(left.drop_first(), right.drop_first())))
}

proof fn lemma_lexicographic_irreflexive<T: Key>(value: Seq<T::V>)
    ensures
        !lexicographic::<T>(value, value),
    decreases value.len(),
{
    if value.len() > 0 {
        T::lemma_irreflexive(value[0]);
        lemma_lexicographic_irreflexive::<T>(value.drop_first());
    }
}

proof fn lemma_lexicographic_transitive<T: Key>(
    first: Seq<T::V>,
    second: Seq<T::V>,
    third: Seq<T::V>,
)
    requires
        lexicographic::<T>(first, second),
        lexicographic::<T>(second, third),
    ensures
        lexicographic::<T>(first, third),
    decreases first.len(),
{
    if first.len() > 0 {
        if T::before(first[0], second[0]) && T::before(second[0], third[0]) {
            T::lemma_transitive(first[0], second[0], third[0]);
        } else if first[0] == second[0] && second[0] == third[0] {
            if lexicographic::<T>(first.drop_first(), second.drop_first()) && lexicographic::<T>(
                second.drop_first(),
                third.drop_first(),
            ) {
                lemma_lexicographic_transitive::<T>(
                    first.drop_first(),
                    second.drop_first(),
                    third.drop_first(),
                );
            } else {
                T::lemma_irreflexive(first[0]);
            }
        }
    }
}

proof fn lemma_lexicographic_total<T: Key>(left: Seq<T::V>, right: Seq<T::V>)
    ensures
        left == right || lexicographic::<T>(left, right) || lexicographic::<T>(right, left),
    decreases left.len(),
{
    if left.len() == 0 || right.len() == 0 {
        if left.len() == 0 && right.len() == 0 {
            assert(left =~= right);
        }
    } else {
        T::lemma_total(left[0], right[0]);
        lemma_lexicographic_total::<T>(left.drop_first(), right.drop_first());
        if left[0] == right[0] && left.drop_first() == right.drop_first() {
            assert(left =~= seq![left[0]] + left.drop_first());
            assert(right =~= seq![right[0]] + right.drop_first());
        }
    }
}

/// Sharing a prefix does not change the order of what follows it.
proof fn lemma_lexicographic_skip<T: Key>(left: Seq<T::V>, right: Seq<T::V>, shared: int)
    requires
        0 <= shared <= left.len(),
        shared <= right.len(),
        forall|i: int| 0 <= i < shared ==> left[i] == right[i],
    ensures
        lexicographic::<T>(left, right) == lexicographic::<T>(left.skip(shared), right.skip(shared)),
    decreases shared,
{
    if shared == 0 {
        assert(left.skip(0) =~= left);
        assert(right.skip(0) =~= right);
    } else {
        T::lemma_irreflexive(left[0]);
        lemma_lexicographic_skip::<T>(left.drop_first(), right.drop_first(), shared - 1);
        assert(left.drop_first().skip(shared - 1) =~= left.skip(shared));
        assert(right.drop_first().skip(shared - 1) =~= right.skip(shared));
    }
}

impl<T: Key> Key for Vec<T> {
    open spec fn before(left: Seq<T::V>, right: Seq<T::V>) -> bool {
        lexicographic::<T>(left, right)
    }

    proof fn lemma_irreflexive(value: Seq<T::V>) {
        lemma_lexicographic_irreflexive::<T>(value);
    }

    proof fn lemma_transitive(first: Seq<T::V>, second: Seq<T::V>, third: Seq<T::V>) {
        if lexicographic::<T>(first, second) && lexicographic::<T>(second, third) {
            lemma_lexicographic_transitive::<T>(first, second, third);
        }
    }

    proof fn lemma_total(left: Seq<T::V>, right: Seq<T::V>) {
        lemma_lexicographic_total::<T>(left, right);
    }

    fn place(&self, other: &Self) -> (place: Place) {
        let ghost left = self.deep_view();
        let ghost right = other.deep_view();
        let mut index: usize = 0;
        while index < self.len() && index < other.len()
            invariant
                left == self.deep_view(),
                right == other.deep_view(),
                index <= self.len(),
                index <= other.len(),
                forall|i: int| 0 <= i < index ==> left[i] == right[i],
            decreases self.len() - index,
        {
            let place = self[index].place(&other[index]);
            if place == Place::Same {
                index += 1;
            } else {
                proof {
                    assert(left.skip(index as int)[0] == self@[index as int].deep_view());
                    assert(right.skip(index as int)[0] == other@[index as int].deep_view());
                    lemma_lexicographic_skip::<T>(left, right, index as int);
                    assert forall|i: int| 0 <= i < index implies right[i] == left[i] by {}
                    lemma_lexicographic_skip::<T>(right, left, index as int);
                }
                return place;
            }
        }
        proof {
            lemma_lexicographic_skip::<T>(left, right, index as int);
            assert forall|i: int| 0 <= i < index implies right[i] == left[i] by {}
            lemma_lexicographic_skip::<T>(right, left, index as int);
        }
        if index < other.len() {
            Place::Before
        } else if index < self.len() {
            Place::After
        } else {
            assert(left =~= right);
            Place::Same
        }
    }
}

/// Texts are ordered by the bytes of their UTF-8 encoding.
pub open spec fn text_before(left: Seq<char>, right: Seq<char>) -> bool {
    lexicographic::<u8>(encode_utf8(left), encode_utf8(right))
}

/// Two texts with the same bytes are the same text.
pub proof fn lemma_encoding_injective(left: Seq<char>, right: Seq<char>)
    requires
        encode_utf8(left) == encode_utf8(right),
    ensures
        left == right,
{
    vstd::utf8::encode_utf8_decode_utf8(left);
    vstd::utf8::encode_utf8_decode_utf8(right);
}

/// Compares two byte strings in lexicographic order.
pub fn place_bytes(left: &[u8], right: &[u8]) -> (place: Place)
    ensures
        match place {
            Place::Before => lexicographic::<u8>(left@, right@),
            Place::Same => left@ == right@,
            Place::After => lexicographic::<u8>(right@, left@),
        },
{
    let mut index: usize = 0;
    while index < left.len() && index < right.len()
        invariant
            index <= left.len(),
            index <= right.len(),
            forall|i: int| 0 <= i < index ==> left@[i] == right@[i],
        decreases left.len() - index,
    {
        if left[index] != right[index] {
            proof {
                assert(left@.skip(index as int)[0] == left@[index as int]);
                assert(right@.skip(index as int)[0] == right@[index as int]);
                lemma_lexicographic_skip::<u8>(left@, right@, index as int);
                lemma_lexicographic_skip::<u8>(right@, left@, index as int);
            }
            return if left[index] < right[index] {
                Place::Before
            } else {
                Place::After
            };
        }
        index += 1;
    }
    proof {
        lemma_lexicographic_skip::<u8>(left@, right@, index as int);
        lemma_lexicographic_skip::<u8>(right@, left@, index as int);
    }
    if index < right.len() {
        Place::Before
    } else if index < left.len() {
        Place::After
    } else {
        assert(left@ =~= right@);
        Place::Same
    }
}

/// Compares two texts by their bytes.
pub fn place_text(left: &str, right: &str) -> (place: Place)
    ensures
        match place {
            Place::Before => text_before(left@, right@),
            Place::Same => left@ == right@,
            Place::After => text_before(right@, left@),
        },
{
    let place = place_bytes(left.as_bytes(), right.as_bytes());
    proof {
        if place == Place::Same {
            lemma_encoding_injective(left@, right@);
        }
    }
    place
}

impl Key for String {
    open spec fn before(left: Seq<char>, right: Seq<char>) -> bool {
        text_before(left, right)
    }

    proof fn lemma_irreflexive(value: Seq<char>) {
        lemma_lexicographic_irreflexive::<u8>(encode_utf8(value));
    }

    proof fn lemma_transitive(first: Seq<char>, second: Seq<char>, third: Seq<char>) {
        if text_before(first, second) && text_before(second, third) {
            lemma_lexicographic_transitive::<u8>(
                encode_utf8(first),
                encode_utf8(second),
                encode_utf8(third),
            );
        }
    }

    proof fn lemma_total(left: Seq<char>, right: Seq<char>) {
        lemma_lexicographic_total::<u8>(encode_utf8(left), encode_utf8(right));
        if encode_utf8(left) == encode_utf8(right) {
            lemma_encoding_injective(left, right);
        }
    }

    fn place(&self, other: &Self) -> (place: Place) {
        place_text(self.as_str(), other.as_str())
    }
}

} // verus!
