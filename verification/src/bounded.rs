//! A list with a fixed capacity, generic in what it holds.

use vstd::prelude::*;

verus! {

/// A list that takes an item only while it has fewer than `N`.
#[derive(Clone, Debug, PartialEq, Eq)]
pub struct BoundedVec<T, const N: usize> {
    items: Vec<T>,
}

impl<T, const N: usize> View for BoundedVec<T, N> {
    type V = Seq<T>;

    /// The items, front to back.
    closed spec fn view(&self) -> Seq<T> {
        self.items@
    }
}

impl<T, const N: usize> BoundedVec<T, N> {
    /// An empty list.
    pub fn new() -> (r: Self)
        ensures
            r@ == Seq::<T>::empty(),
    {
        Self { items: Vec::new() }
    }

    /// Puts an item at the back, or hands it back where the list is full.
    pub fn push(&mut self, item: T) -> (r: Result<(), T>)
        ensures
            old(self)@.len() < N ==> r is Ok && final(self)@ == old(self)@.push(item),
            old(self)@.len() >= N ==> r == Err::<(), T>(item) && final(self)@ == old(self)@,
            old(self)@.len() <= N ==> final(self)@.len() <= N,
    {
        if self.items.len() < N {
            self.items.push(item);
            Ok(())
        } else {
            Err(item)
        }
    }

    /// Takes all items out.
    pub fn clear(&mut self)
        ensures
            final(self)@ == Seq::<T>::empty(),
    {
        self.items = Vec::new();
    }

    /// How many items there are.
    pub fn len(&self) -> (r: usize)
        ensures
            r == self@.len(),
    {
        self.items.len()
    }

    /// How many more items it takes.
    pub fn room(&self) -> (r: usize)
        ensures
            r == if N > self@.len() {
                N - self@.len()
            } else {
                0
            },
    {
        if N > self.items.len() {
            N - self.items.len()
        } else {
            0
        }
    }

    /// Whether there is none.
    pub fn is_empty(&self) -> (r: bool)
        ensures
            r == (self@.len() == 0),
    {
        self.items.len() == 0
    }

    /// The items, front to back.
    pub fn as_slice(&self) -> (r: &[T])
        ensures
            r@ == self@,
    {
        self.items.as_slice()
    }
}

impl<T, const N: usize> Default for BoundedVec<T, N> {
    fn default() -> (r: Self)
        ensures
            r@ == Seq::<T>::empty(),
    {
        Self::new()
    }
}

} // verus!
