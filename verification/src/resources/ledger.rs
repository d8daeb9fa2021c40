//! The account of the values that were handed to a table.

use super::model::Account;
use vstd::prelude::*;

verus! {

/// Records what became of each value that was handed over.
///
/// The record is a ghost. Only the functions here advance it, each with what it
/// does to the value.
pub struct Ledger<T> {
    account: Ghost<Account<T>>,
}

impl<T> View for Ledger<T> {
    type V = Account<T>;

    closed spec fn view(&self) -> Account<T> {
        self.account@
    }
}

impl<T> Ledger<T> {
    /// Whether every value that is on record as destroyed was discarded: it was
    /// moved into `Result::err` as a success, which keeps an error only.
    pub open spec fn wf(&self) -> bool {
        forall|k: int|
            0 <= k < self@.destroyed.len() ==> call_ensures(
                Result::<T, ()>::err,
                (Ok::<T, ()>(#[trigger] self@.destroyed[k]),),
                None::<()>,
            )
    }

    /// Opens an account with nothing on record.
    pub fn new() -> (ledger: Self)
        ensures
            ledger.wf(),
            ledger@.taken == Seq::<T>::empty(),
            ledger@.returned == Seq::<T>::empty(),
            ledger@.destroyed == Seq::<T>::empty(),
    {
        Ledger {
            account: Ghost(
                Account { taken: Seq::empty(), returned: Seq::empty(), destroyed: Seq::empty() },
            ),
        }
    }

    /// Records that a value was handed over.
    pub fn take_in(&mut self, value: &T)
        requires
            old(self).wf(),
        ensures
            final(self).wf(),
            final(self)@.taken == old(self)@.taken.push(*value),
            final(self)@.returned == old(self)@.returned,
            final(self)@.destroyed == old(self)@.destroyed,
    {
        self.account = Ghost(
            Account { taken: self.account@.taken.push(*value), ..self.account@ },
        );
        assert(self@.destroyed == old(self)@.destroyed);
    }

    /// Records that a value goes back to a caller.
    pub fn give_back(&mut self, value: T) -> (same: T)
        requires
            old(self).wf(),
        ensures
            final(self).wf(),
            same == value,
            final(self)@.taken == old(self)@.taken,
            final(self)@.returned == old(self)@.returned.push(value),
            final(self)@.destroyed == old(self)@.destroyed,
    {
        self.account = Ghost(
            Account { returned: self.account@.returned.push(value), ..self.account@ },
        );
        assert(self@.destroyed == old(self)@.destroyed);
        value
    }

    /// Destroys a value and records it.
    ///
    /// The value is moved into `Result::err` as a success, which discards it.
    pub fn destroy(&mut self, value: T)
        requires
            old(self).wf(),
        ensures
            final(self).wf(),
            call_ensures(Result::<T, ()>::err, (Ok::<T, ()>(value),), None::<()>),
            final(self)@.taken == old(self)@.taken,
            final(self)@.returned == old(self)@.returned,
            final(self)@.destroyed == old(self)@.destroyed.push(value),
    {
        self.account = Ghost(
            Account { destroyed: self.account@.destroyed.push(value), ..self.account@ },
        );
        let _discarded: Option<()> = Ok::<T, ()>(value).err();
        assert forall|k: int| 0 <= k < self@.destroyed.len() implies call_ensures(
            Result::<T, ()>::err,
            (Ok::<T, ()>(#[trigger] self@.destroyed[k]),),
            None::<()>,
        ) by {
            if k < old(self)@.destroyed.len() {
                assert(self@.destroyed[k] == old(self)@.destroyed[k]);
            }
        }
    }
}

} // verus!
