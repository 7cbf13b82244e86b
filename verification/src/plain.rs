//! Values that are fully described by their mathematical content.

use std::sync::Arc;

use vstd::prelude::*;

verus! {

/// A value whose copies and comparisons are governed by its mathematical content alone.
pub trait Plain: DeepView + Sized {
    /// Makes a second value with the same content.
    fn duplicate(&self) -> (copy: Self)
        ensures
            copy.deep_view() == self.deep_view(),
    ;

    /// Whether two values have the same content.
    fn same(&self, other: &Self) -> (equal: bool)
        ensures
            equal == (self.deep_view() == other.deep_view()),
    ;
}

impl Plain for () {
    fn duplicate(&self) -> (copy: Self) {
    }

    fn same(&self, other: &Self) -> (equal: bool) {
        true
    }
}

impl Plain for bool {
    fn duplicate(&self) -> (copy: Self) {
        *self
    }

    fn same(&self, other: &Self) -> (equal: bool) {
        *self == *other
    }
}

impl Plain for u8 {
    fn duplicate(&self) -> (copy: Self) {
        *self
    }

    fn same(&self, other: &Self) -> (equal: bool) {
        *self == *other
    }
}

impl Plain for u32 {
    fn duplicate(&self) -> (copy: Self) {
        *self
    }

    fn same(&self, other: &Self) -> (equal: bool) {
        *self == *other
    }
}

impl Plain for u64 {
    fn duplicate(&self) -> (copy: Self) {
        *self
    }

    fn same(&self, other: &Self) -> (equal: bool) {
        *self == *other
    }
}

impl Plain for usize {
    fn duplicate(&self) -> (copy: Self) {
        *self
    }

    fn same(&self, other: &Self) -> (equal: bool) {
        *self == *other
    }
}

impl Plain for String {
    fn duplicate(&self) -> (copy: Self) {
        self.clone()
    }

    fn same(&self, other: &Self) -> (equal: bool) {
        *self == *other
    }
}

impl<T: Plain> Plain for Option<T> {
    fn duplicate(&self) -> (copy: Self) {
        match self {
            Some(value) => Some(value.duplicate()),
            None => None,
        }
    }

    fn same(&self, other: &Self) -> (equal: bool) {
        match (self, other) {
            (Some(left), Some(right)) => left.same(right),
            (None, None) => true,
            _ => false,
        }
    }
}

impl<A: Plain, B: Plain> Plain for (A, B) {
    fn duplicate(&self) -> (copy: Self) {
        (self.0.duplicate(), self.1.duplicate())
    }

    fn same(&self, other: &Self) -> (equal: bool) {
        self.0.same(&other.0) && self.1.same(&other.1)
    }
}

impl<T: Plain> Plain for Arc<T> {
    fn duplicate(&self) -> (copy: Self) {
        Arc::clone(self)
    }

    fn same(&self, other: &Self) -> (equal: bool) {
        (**self).same(&**other)
    }
}

impl<T: Plain> Plain for Box<T> {
    fn duplicate(&self) -> (copy: Self) {
        Box::new((**self).duplicate())
    }

    fn same(&self, other: &Self) -> (equal: bool) {
        (**self).same(&**other)
    }
}

impl<T: Plain> Plain for Vec<T> {
    fn duplicate(&self) -> (copy: Self) {
        let mut copy: Vec<T> = Vec::new();
        let mut index: usize = 0;
        while index < self.len()
            invariant
                index <= self.len(),
                copy.len() == index,
                forall|i: int|
                    0 <= i < index ==> (#[trigger] copy@[i]).deep_view() == self@[i].deep_view(),
            decreases self.len() - index,
        {
            copy.push(self[index].duplicate());
            index += 1;
        }
        assert(copy.deep_view() =~= self.deep_view());
        copy
    }

    fn same(&self, other: &Self) -> (equal: bool) {
        if self.len() != other.len() {
            assert(self.deep_view().len() != other.deep_view().len());
            return false;
        }
        let mut index: usize = 0;
        while index < self.len()
            invariant
                self.len() == other.len(),
                index <= self.len(),
                forall|i: int|
                    0 <= i < index ==> (#[trigger] self@[i]).deep_view() == other@[i].deep_view(),
            decreases self.len() - index,
        {
            if !self[index].same(&other[index]) {
                assert(self.deep_view()[index as int] != other.deep_view()[index as int]);
                return false;
            }
            index += 1;
        }
        assert(self.deep_view() =~= other.deep_view());
        true
    }
}

} // verus!
