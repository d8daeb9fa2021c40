//! Vectors that grow only into storage reserved beforehand.

use std::collections::TryReserveError;
use vstd::prelude::*;

verus! {

/// A vector with a record of the storage that was reserved for it.
///
/// The record is a ghost: it counts the elements for which a reservation has
/// succeeded. Only `try_reserve` raises it, after the allocator granted the
/// storage. An element can be pushed only within it, so pushing never asks the
/// allocator for storage.
pub struct ReservedVec<T> {
    items: Vec<T>,
    room: Ghost<nat>,
}

impl<T> View for ReservedVec<T> {
    type V = Seq<T>;

    closed spec fn view(&self) -> Seq<T> {
        self.items@
    }
}

impl<T> ReservedVec<T> {
    /// The number of elements for which storage has been reserved.
    pub closed spec fn room(&self) -> nat {
        self.room@
    }

    /// Whether the elements lie within the reserved storage.
    pub open spec fn wf(&self) -> bool {
        self@.len() <= self.room()
    }

    /// Creates an empty vector, which needs no storage.
    pub fn new() -> (vec: Self)
        ensures
            vec.wf(),
            vec@ == Seq::<T>::empty(),
            vec.room() == 0,
    {
        ReservedVec { items: Vec::new(), room: Ghost(0) }
    }

    /// Returns the number of elements.
    pub fn len(&self) -> (count: usize)
        ensures
            count == self@.len(),
    {
        self.items.len()
    }

    /// Borrows the element at an index.
    pub fn at(&self, index: usize) -> (item: &T)
        requires
            index < self@.len(),
        ensures
            *item == self@[index as int],
    {
        &self.items[index]
    }

    /// Mutably borrows the element at an index.
    pub fn at_mut(&mut self, index: usize) -> (item: &mut T)
        requires
            index < old(self)@.len(),
        ensures
            *item == old(self)@[index as int],
            final(self)@ == old(self)@.update(index as int, *final(item)),
            final(self).room() == old(self).room(),
    {
        &mut self.items[index]
    }

    /// Reserves storage for `additional` further elements, if it can be had.
    ///
    /// Whether it can is up to the allocator: the answer is one that
    /// `Vec::try_reserve` gave for a vector of these elements.
    pub fn try_reserve(&mut self, additional: usize) -> (reserved: bool)
        requires
            old(self).wf(),
        ensures
            final(self).wf(),
            final(self)@ == old(self)@,
            final(self).room() == if reserved {
                vstd::math::max(old(self).room() as int, old(self)@.len() + additional) as nat
            } else {
                old(self).room()
            },
            exists|items: &mut Vec<T>, answer: Result<(), TryReserveError>|
                {
                    &&& items@ == old(self)@
                    &&& reserved == (answer is Ok)
                    &&& #[trigger] call_ensures(
                        Vec::<T>::try_reserve,
                        (items, additional),
                        answer,
                    )
                },
    {
        match self.items.try_reserve(additional) {
            Ok(()) => {
                proof {
                    let wanted = self.items@.len() + additional as nat;
                    if self.room@ < wanted {
                        self.room@ = wanted;
                    }
                }
                true
            },
            Err(_) => false,
        }
    }

    /// Appends an element within the reserved storage.
    pub fn push(&mut self, item: T)
        requires
            old(self).wf(),
            old(self)@.len() < old(self).room(),
        ensures
            final(self).wf(),
            final(self)@ == old(self)@.push(item),
            final(self).room() == old(self).room(),
    {
        self.items.push(item);
    }

    /// Takes the last element out, if there is one.
    pub fn pop(&mut self) -> (item: Option<T>)
        requires
            old(self).wf(),
        ensures
            final(self).wf(),
            final(self).room() == old(self).room(),
            old(self)@.len() == 0 ==> item is None && final(self)@ == old(self)@,
            old(self)@.len() > 0 ==> item == Some(old(self)@.last()) && final(self)@ == old(
                self,
            )@.drop_last(),
    {
        self.items.pop()
    }
}

} // verus!
