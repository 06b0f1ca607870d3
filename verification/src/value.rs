//! Values that can be duplicated and compared by what they stand for.
//!
//! Contracts speak of the deep view of a value: strings as character sequences, vectors as
//! sequences, structs as records of such views.
use vstd::prelude::*;

verus! {

/// A value whose copies and comparisons follow its deep view.
pub trait Value: DeepView + Sized {
    /// A copy that stands for the same thing.
    fn dup(&self) -> (copy: Self)
        ensures
            copy.deep_view() == self.deep_view(),
    ;

    /// Whether both values stand for the same thing.
    fn same(&self, other: &Self) -> (result: bool)
        ensures
            result == (self.deep_view() == other.deep_view()),
    ;
}

impl Value for () {
    fn dup(&self) -> (copy: Self) {
    }

    fn same(&self, other: &Self) -> (result: bool) {
        true
    }
}

impl Value for bool {
    fn dup(&self) -> (copy: Self) {
        *self
    }

    fn same(&self, other: &Self) -> (result: bool) {
        *self == *other
    }
}

impl Value for u8 {
    fn dup(&self) -> (copy: Self) {
        *self
    }

    fn same(&self, other: &Self) -> (result: bool) {
        *self == *other
    }
}

impl Value for u16 {
    fn dup(&self) -> (copy: Self) {
        *self
    }

    fn same(&self, other: &Self) -> (result: bool) {
        *self == *other
    }
}

impl Value for u32 {
    fn dup(&self) -> (copy: Self) {
        *self
    }

    fn same(&self, other: &Self) -> (result: bool) {
        *self == *other
    }
}

impl Value for u64 {
    fn dup(&self) -> (copy: Self) {
        *self
    }

    fn same(&self, other: &Self) -> (result: bool) {
        *self == *other
    }
}

impl Value for usize {
    fn dup(&self) -> (copy: Self) {
        *self
    }

    fn same(&self, other: &Self) -> (result: bool) {
        *self == *other
    }
}

impl Value for String {
    fn dup(&self) -> (copy: Self) {
        self.clone()
    }

    fn same(&self, other: &Self) -> (result: bool) {
        *self == *other
    }
}

impl<T: Value> Value for Option<T> {
    fn dup(&self) -> (copy: Self) {
        match self {
            Some(value) => Some(value.dup()),
            None => None,
        }
    }

    fn same(&self, other: &Self) -> (result: bool) {
        match (self, other) {
            (Some(left), Some(right)) => left.same(right),
            (None, None) => true,
            _ => false,
        }
    }
}

impl<A: Value, B: Value> Value for (A, B) {
    fn dup(&self) -> (copy: Self) {
        (self.0.dup(), self.1.dup())
    }

    fn same(&self, other: &Self) -> (result: bool) {
        self.0.same(&other.0) && self.1.same(&other.1)
    }
}

impl<T: Value> Value for Vec<T> {
    fn dup(&self) -> (copy: Self) {
        let mut copy: Vec<T> = Vec::with_capacity(self.len());
        let mut index: usize = 0;
        while index < self.len()
            invariant
                index <= self.len(),
                copy@.len() == index,
                forall|i: int|
                    0 <= i < index ==> (#[trigger] copy@[i]).deep_view() == self@[i].deep_view(),
            decreases self.len() - index,
        {
            copy.push(self[index].dup());
            index += 1;
        }
        assert(copy.deep_view() =~= self.deep_view());
        copy
    }

    fn same(&self, other: &Self) -> (result: bool) {
        if self.len() != other.len() {
            assert(self.deep_view().len() != other.deep_view().len());
            return false;
        }
        let mut index: usize = 0;
        while index < self.len()
            invariant
                index <= self.len(),
                self.len() == other.len(),
                forall|i: int|
                    0 <= i < index ==> (#[trigger] self@[i]).deep_view() == other@[i].deep_view(),
            decreases self.len() - index,
        {
            if !self[index].same(&other[index]) {
                assert(self.deep_view()[index as int] != other.deep_view()[index as int]);
                return false;
            }
            index += 1;
        }
        assert(self.deep_view() =~= other.deep_view());
        true
    }
}

} // verus!
