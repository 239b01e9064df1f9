//! Vectors indexed by typed indices.

use vstd::prelude::*;

verus! {

/// A typed index into an [`IdxVec`].
pub trait Idx: Sized {
    /// The position this index stands for.
    spec fn spec_idx(&self) -> nat;

    fn as_idx(&self) -> (r: usize)
        ensures
            r as nat == self.spec_idx(),
    ;

    fn new(idx: usize) -> (r: Self)
        ensures
            r.spec_idx() == idx as nat,
    ;
}

/// A vector whose positions are named by a typed index `Index`.
#[derive(Debug)]
pub struct IdxVec<Index: Idx, T> {
    vec: Vec<T>,
    _marker: std::marker::PhantomData<Index>,
}

impl<Index: Idx, T> View for IdxVec<Index, T> {
    type V = Seq<T>;

    open spec fn view(&self) -> Seq<T> {
        self.spec_vec()
    }
}

impl<Index: Idx, T> IdxVec<Index, T> {
    /// The elements, in order of their positions.
    pub closed spec fn spec_vec(&self) -> Seq<T> {
        self.vec@
    }

    pub fn new() -> (r: Self)
        ensures
            r@ == Seq::<T>::empty(),
    {
        IdxVec { vec: Vec::new(), _marker: std::marker::PhantomData }
    }

    /// Appends `value`; the returned index names its position.
    pub fn push(&mut self, value: T) -> (r: Index)
        ensures
            final(self)@ == old(self)@.push(value),
            r.spec_idx() == old(self)@.len(),
    {
        let next_idx = self.vec.len();
        self.vec.push(value);
        Index::new(next_idx)
    }

    /// All indices of the vector, in increasing order.
    pub fn cloned_indices(&self) -> (r: Vec<Index>)
        ensures
            r@.len() == self@.len(),
            forall|i: int| 0 <= i < r@.len() ==> (#[trigger] r@[i]).spec_idx() == i,
    {
        let mut r: Vec<Index> = Vec::new();
        let n = self.vec.len();
        for i in 0..n
            invariant
                n == self@.len(),
                r@.len() == i,
                forall|j: int| 0 <= j < r@.len() ==> (#[trigger] r@[j]).spec_idx() == j,
        {
            r.push(Index::new(i));
        }
        r
    }

    /// The elements, in order of their positions.
    pub fn iter(&self) -> (r: Vec<&T>)
        ensures
            r@.len() == self@.len(),
            forall|i: int| 0 <= i < r@.len() ==> *(#[trigger] r@[i]) == self@[i],
    {
        let mut r: Vec<&T> = Vec::new();
        let n = self.vec.len();
        for i in 0..n
            invariant
                n == self@.len(),
                r@.len() == i,
                forall|j: int| 0 <= j < r@.len() ==> *(#[trigger] r@[j]) == self@[j],
        {
            r.push(&self.vec[i]);
        }
        r
    }

    /// Each element paired with the index that names its position, in order.
    pub fn indexed_iter(&self) -> (r: Vec<(Index, &T)>)
        ensures
            r@.len() == self@.len(),
            forall|i: int| 0 <= i < r@.len() ==> (#[trigger] r@[i]).0.spec_idx() == i && *r@[i].1 == self@[i],
    {
        let mut r: Vec<(Index, &T)> = Vec::new();
        let n = self.vec.len();
        for i in 0..n
            invariant
                n == self@.len(),
                r@.len() == i,
                forall|j: int| 0 <= j < r@.len() ==> (#[trigger] r@[j]).0.spec_idx() == j && *r@[j].1 == self@[j],
        {
            r.push((Index::new(i), &self.vec[i]));
        }
        r
    }

    pub fn len(&self) -> (r: usize)
        ensures
            r == self@.len(),
    {
        self.vec.len()
    }

    pub fn is_empty(&self) -> (r: bool)
        ensures
            r == (self@.len() == 0),
    {
        self.vec.len() == 0
    }

    /// The element at `index`.
    pub fn get(&self, index: Index) -> (r: &T)
        requires
            index.spec_idx() < self@.len(),
        ensures
            *r == self@[index.spec_idx() as int],
    {
        &self.vec[index.as_idx()]
    }

    /// The element at `index`, to be changed in place.
    pub fn get_mut(&mut self, index: Index) -> (r: &mut T)
        requires
            index.spec_idx() < old(self)@.len(),
        ensures
            *r == old(self)@[index.spec_idx() as int],
            final(self)@ == old(self)@.update(index.spec_idx() as int, *final(r)),
    {
        let i = index.as_idx();
        &mut self.vec[i]
    }

    /// Replaces the element at `index` by `value`.
    pub fn set(&mut self, index: Index, value: T)
        requires
            index.spec_idx() < old(self)@.len(),
        ensures
            final(self)@ == old(self)@.update(index.spec_idx() as int, value),
    {
        let i = index.as_idx();
        self.vec.set(i, value);
    }
}

impl<Index: Idx, T> Default for IdxVec<Index, T> {
    fn default() -> (r: Self)
        ensures
            r@ == Seq::<T>::empty(),
    {
        Self::new()
    }
}

} // verus!
