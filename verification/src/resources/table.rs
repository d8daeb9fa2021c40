//! The table of host-owned resources.
//!
//! Each operation is stated over the table's model: what it returns, and the
//! model after it.

use super::error::ResourceError;
use super::ids::{ResourceHandle, ResourceType};
use super::ledger::Ledger;
use super::model::{Account, Operation, Resource, SlotModel, TableModel};
use super::storage::ReservedVec;
use std::collections::TryReserveError;
use vstd::prelude::*;

verus! {

/// A resource in its slot.
pub struct Entry<T> {
    pub kind: ResourceType,
    pub value: T,
}

/// A place for one resource.
pub struct Slot<T> {
    pub generation: u32,
    pub entry: Option<Entry<T>>,
}

impl<T> Slot<T> {
    /// The slot as the model has it.
    pub open spec fn model(self) -> SlotModel<T> {
        SlotModel {
            generation: self.generation as nat,
            resource: match self.entry {
                Some(entry) => Some(Resource { kind: entry.kind, value: entry.value }),
                None => None,
            },
        }
    }
}

/// The slots of a vector as the model has them.
pub open spec fn slot_models<T>(slots: Seq<Slot<T>>) -> Seq<SlotModel<T>> {
    slots.map_values(|slot: Slot<T>| slot.model())
}

/// The slots to reuse as the model has them.
pub open spec fn slot_indices(free: Seq<u16>) -> Seq<int> {
    free.map_values(|index: u16| index as int)
}

/// A per-instance, bounded table of host-owned resource values.
///
/// Values are stored inline in a vector, with no allocation on lookup or
/// removal. A removed slot's generation changes before reuse, so old handles
/// cannot name a new value in the same table. Exhausted generations retire
/// their slots instead of wrapping. Dropping the table drops every live value.
///
/// This is a host-side table, not the canonical component handle table. A
/// future component adapter must still enforce `own`/`borrow` transfer and
/// borrow-scope rules. Raw core-Wasm handles may collide across tables;
/// bind callbacks to the calling guest/worker's own table.
pub struct ResourceTable<T> {
    slots: ReservedVec<Slot<T>>,
    free: ReservedVec<u16>,
    max_live: u16,
    live: u16,
    slot_bits: u32,
    slot_mask: u32,
    ledger: Ledger<T>,
}

impl<T> View for ResourceTable<T> {
    type V = TableModel<T>;

    closed spec fn view(&self) -> TableModel<T> {
        TableModel {
            max_live: self.max_live as nat,
            slots: slot_models(self.slots@),
            free: slot_indices(self.free@),
        }
    }
}

impl<T> ResourceTable<T> {
    /// What became of the values that were handed to the table.
    pub closed spec fn account(&self) -> Account<T> {
        self.ledger@
    }

    /// Whether every value that was handed to the table is held by it, was
    /// returned or destroyed, or is one of those on their way.
    spec fn balanced(&self, on_their_way: nat) -> bool {
        self.account().taken.len() == self@.resources().len() + self.account().returned.len()
            + self.account().destroyed.len() + on_their_way
    }

    /// What holds of the fields beside the model's own invariant, with some
    /// values on their way between the table and a caller.
    spec fn fields_inv(&self, on_their_way: nat) -> bool {
        &&& self.slots.wf()
        &&& self.free.wf()
        &&& self.ledger.wf()
        &&& self.balanced(on_their_way)
        &&& self.slots@.len() <= self.free.room()
        &&& self.live == self@.resources().len()
        &&& self.slot_bits == super::layout::bit_width(self.max_live as nat)
        &&& self.slot_mask == super::layout::span(self.max_live as nat) - 1
    }

    /// What holds of the fields beside the model's own invariant.
    pub closed spec fn inv(&self) -> bool {
        self.fields_inv(0)
    }

    /// What holds of every table.
    pub open spec fn wf(&self) -> bool {
        self@.wf() && self.inv()
    }

    /// Creates a table with an explicit live-resource and backing-slot cap.
    ///
    /// The cap is positive and at most 65,535. Use a smaller cap on constrained
    /// devices.
    pub fn new(max_live: u16) -> (table: Self)
        requires
            max_live > 0,
        ensures
            table.wf(),
            table@ == TableModel::<T>::empty(max_live as nat),
            table@.max_live == max_live,
            table@.slots.len() == 0,
            table@.free.len() == 0,
            table.account().taken.len() == 0,
            table.account().returned.len() == 0,
            table.account().destroyed.len() == 0,
            table@.resources() == Map::<u32, Resource<T>>::empty(),
            table.storage() == (0nat, 0nat),
    {
        proof {
            super::layout::lemma_width_from_leading_zeros(max_live);
            super::layout::lemma_span_bounds(max_live as nat);
            super::laws::lemma_empty::<T>(max_live as nat);
        }
        let slot_bits = u32::BITS - u32::from(max_live).leading_zeros();
        proof {
            super::layout::lemma_shifted_one_is_span(max_live as nat, slot_bits);
        }
        let slot_mask = (1_u32 << slot_bits) - 1;
        let table = Self {
            slots: ReservedVec::new(),
            free: ReservedVec::new(),
            max_live,
            live: 0,
            slot_bits,
            slot_mask,
            ledger: Ledger::new(),
        };
        assert(table@ == TableModel::<T>::empty(max_live as nat));
        table
    }

    /// Returns the number of live resources.
    pub fn len(&self) -> (count: usize)
        requires
            self.wf(),
        ensures
            count == self@.resources().len(),
    {
        self.live as usize
    }

    /// Returns whether no resources are live.
    pub fn is_empty(&self) -> (empty: bool)
        requires
            self.wf(),
        ensures
            empty == (self@.resources() == Map::<u32, Resource<T>>::empty()),
    {
        proof {
            super::laws::lemma_counts(self@);
            if self.live == 0 {
                self@.resources().dom().lemma_len0_is_empty();
                assert(self@.resources() =~= Map::<u32, Resource<T>>::empty());
            }
        }
        self.live == 0
    }

    /// The slots that the table's vector holds.
    pub closed spec fn stored(&self) -> Seq<Slot<T>> {
        self.slots@
    }

    /// Every live value is stored inline in the vector of slots, in the slot that
    /// its word points to, beside its type and the word's generation.
    pub proof fn lemma_values_are_stored_inline(&self, raw: u32)
        requires
            self.wf(),
            self@.resources().contains_key(raw),
        ensures
            ({
                let s = super::layout::span(self@.max_live);
                let slot = self.stored()[raw as nat % s - 1];
                let resource = self@.resources()[raw];
                &&& self.stored().len() == self@.slots.len()
                &&& 0 <= raw as nat % s - 1 < self.stored().len()
                &&& slot.generation == raw as nat / s
                &&& slot.entry == Some(Entry { kind: resource.kind, value: resource.value })
            }),
    {
        assert(self@.slots[self@.slot_of(raw)] == self.stored()[self@.slot_of(raw)].model());
    }

    /// For how many slots, and for how many slots to reuse, storage has been
    /// reserved.
    pub closed spec fn storage(&self) -> (nat, nat) {
        (self.slots.room(), self.free.room())
    }

    /// The reserved storage once it reaches to one more slot.
    pub open spec fn grown_storage(&self) -> (nat, nat) {
        let wanted = self@.slots.len() + 1;
        (
            if self.storage().0 < wanted {
                wanted
            } else {
                self.storage().0
            },
            if self.storage().1 < wanted {
                wanted
            } else {
                self.storage().1
            },
        )
    }

    /// Whether storage for one more slot, and for its place among the slots to
    /// reuse, has been reserved.
    pub open spec fn has_room(&self) -> bool {
        &&& self@.slots.len() < self.storage().0
        &&& self@.slots.len() < self.storage().1
    }

    /// The slots lie within the reserved storage. While a resource is live, so
    /// does one more slot to reuse: no removal has to allocate.
    pub proof fn lemma_removal_has_room(&self)
        requires
            self.wf(),
        ensures
            self@.slots.len() <= self.storage().0,
            self@.resources().len() > 0 ==> self@.free.len() < self.storage().1,
    {
        super::laws::lemma_counts(self@);
    }

    /// At every time each value that was handed to an insertion is held by the
    /// table, was returned to a caller or was destroyed, and those on record as
    /// destroyed were discarded.
    pub proof fn lemma_every_value_is_accounted_for(&self)
        requires
            self.wf(),
        ensures
            self.account().taken.len() == self@.resources().len() + self.account().returned.len()
                + self.account().destroyed.len(),
            forall|k: int|
                0 <= k < self.account().destroyed.len() ==> call_ensures(
                    Result::<T, ()>::err,
                    (Ok::<T, ()>(#[trigger] self.account().destroyed[k]),),
                    None::<()>,
                ),
    {
        assert forall|k: int| 0 <= k < self.account().destroyed.len() implies call_ensures(
            Result::<T, ()>::err,
            (Ok::<T, ()>(#[trigger] self.account().destroyed[k]),),
            None::<()>,
        ) by {
            assert(self.ledger@.destroyed[k] == self.account().destroyed[k]);
        }
    }

    /// Inserts one value and returns a raw-ABI-compatible handle.
    ///
    /// On failure the uninserted value is dropped, so native resources owned
    /// by its `Drop` implementation are not leaked. The insertion fails only
    /// where the table is full or where the allocator, asked for a new slot's
    /// storage, refused it. Whether storage for a new
    /// slot can be had is up to the allocator; an insertion that reuses a slot
    /// does not ask for any. Where the allocator grants storage for the slot but
    /// not for its place among the slots to reuse, the former stays reserved.
    pub fn insert(&mut self, kind: ResourceType, value: T) -> (result: Result<
        ResourceHandle,
        ResourceError,
    >)
        requires
            old(self).wf(),
        ensures
            final(self).wf(),
            final(self)@ == old(self)@.after(
                Operation::Insert { kind, value, reserved: result is Ok },
            ),
            match result {
                Ok(handle) => {
                    &&& !old(self)@.is_full()
                    &&& handle.raw() == old(self)@.next_handle()
                    &&& !old(self)@.resources().contains_key(handle.raw())
                    &&& final(self)@ == old(self)@.inserted(kind, value)
                    &&& handle.raw() != 0
                    &&& handle.raw() == {
                        if old(self)@.free.len() == 0 {
                            old(self)@.slots.len() as int + 1
                        } else {
                            let slot = old(self)@.free.last();
                            old(self)@.slots[slot].generation * super::layout::span(
                                old(self)@.max_live,
                            ) + slot + 1
                        }
                    }
                    &&& final(self).account() == (Account {
                        taken: old(self).account().taken.push(value),
                        ..old(self).account()
                    })
                    &&& final(self)@.resources() == old(self)@.resources().insert(
                        handle.raw(),
                        Resource { kind, value },
                    )
                },
                Err(error) => {
                    &&& final(self)@ == old(self)@
                    &&& final(self).account() == (Account {
                        taken: old(self).account().taken.push(value),
                        destroyed: old(self).account().destroyed.push(value),
                        ..old(self).account()
                    })
                    &&& call_ensures(Result::<T, ()>::err, (Ok::<T, ()>(value),), None::<()>)
                    &&& if old(self)@.is_full() {
                        error == ResourceError::Full
                    } else {
                        old(self)@.needs_slot() && error == ResourceError::Allocation
                    }
                },
            },
            if old(self)@.is_full() || !old(self)@.needs_slot() {
                final(self).storage() == old(self).storage()
            } else if result is Ok {
                final(self).storage() == old(self).grown_storage()
            } else {
                ||| final(self).storage() == old(self).storage()
                ||| final(self).storage() == (old(self).grown_storage().0, old(self).storage().1)
            },
            (result == Err::<ResourceHandle, ResourceError>(ResourceError::Full)) <==> {
                ||| old(self)@.resources().len() == old(self)@.max_live
                ||| old(self)@.free.len() == 0 && old(self)@.slots.len() >= old(self)@.max_live
            },
            final(self)@.max_live == old(self)@.max_live,
            final(self)@.slots.len() == old(self)@.slots.len() + (if result is Ok && old(
                self,
            )@.free.len() == 0 {
                1int
            } else {
                0
            }),
            result is Ok && old(self)@.free.len() == 0 ==> {
                &&& exists|slots: &mut Vec<Slot<T>>, answer: Result<(), TryReserveError>|
                    {
                        &&& slot_models(slots@) == old(self)@.slots
                        &&& answer is Ok
                        &&& #[trigger] call_ensures(
                            Vec::<Slot<T>>::try_reserve,
                            (slots, 1usize),
                            answer,
                        )
                    }
                &&& exists|free: &mut Vec<u16>, answer: Result<(), TryReserveError>|
                    {
                        &&& slot_indices(free@) == old(self)@.free
                        &&& answer is Ok
                        &&& #[trigger] call_ensures(
                            Vec::<u16>::try_reserve,
                            (free, (old(self)@.slots.len() + 1) as usize),
                            answer,
                        )
                    }
            },
            result == Err::<ResourceHandle, ResourceError>(ResourceError::Allocation) ==> {
                ||| exists|slots: &mut Vec<Slot<T>>, answer: Result<(), TryReserveError>|
                    {
                        &&& slot_models(slots@) == old(self)@.slots
                        &&& answer is Err
                        &&& #[trigger] call_ensures(
                            Vec::<Slot<T>>::try_reserve,
                            (slots, 1usize),
                            answer,
                        )
                    }
                ||| exists|free: &mut Vec<u16>, answer: Result<(), TryReserveError>|
                    {
                        &&& slot_indices(free@) == old(self)@.free
                        &&& answer is Err
                        &&& #[trigger] call_ensures(
                            Vec::<u16>::try_reserve,
                            (free, (old(self)@.slots.len() + 1) as usize),
                            answer,
                        )
                    }
            },
    {
        let reserved = self.reserve_slot();
        self.insert_reserved(kind, value, reserved)
    }

    /// Reserves storage for a new slot where the next insertion needs one.
    ///
    /// Storage for the slot's place among the slots to reuse is reserved with
    /// it, so that every future removal can free its slot without allocating.
    pub fn reserve_slot(&mut self) -> (reserved: bool)
        requires
            old(self).wf(),
        ensures
            final(self).wf(),
            final(self)@ == old(self)@,
            if old(self)@.is_full() || !old(self)@.needs_slot() {
                reserved && final(self).storage() == old(self).storage()
            } else if reserved {
                final(self).has_room() && final(self).storage() == old(self).grown_storage()
            } else {
                ||| final(self).storage() == old(self).storage()
                ||| final(self).storage() == (old(self).grown_storage().0, old(self).storage().1)
            },
            final(self).account() == old(self).account(),
            reserved && !old(self)@.is_full() && old(self)@.needs_slot() ==> {
                &&& exists|slots: &mut Vec<Slot<T>>, answer: Result<(), TryReserveError>|
                    {
                        &&& slot_models(slots@) == old(self)@.slots
                        &&& answer is Ok
                        &&& #[trigger] call_ensures(
                            Vec::<Slot<T>>::try_reserve,
                            (slots, 1usize),
                            answer,
                        )
                    }
                &&& exists|free: &mut Vec<u16>, answer: Result<(), TryReserveError>|
                    {
                        &&& slot_indices(free@) == old(self)@.free
                        &&& answer is Ok
                        &&& #[trigger] call_ensures(
                            Vec::<u16>::try_reserve,
                            (free, (old(self)@.slots.len() + 1) as usize),
                            answer,
                        )
                    }
            },
            !reserved ==> {
                ||| exists|slots: &mut Vec<Slot<T>>, answer: Result<(), TryReserveError>|
                    {
                        &&& slot_models(slots@) == old(self)@.slots
                        &&& answer is Err
                        &&& #[trigger] call_ensures(
                            Vec::<Slot<T>>::try_reserve,
                            (slots, 1usize),
                            answer,
                        )
                    }
                ||| exists|free: &mut Vec<u16>, answer: Result<(), TryReserveError>|
                    {
                        &&& slot_indices(free@) == old(self)@.free
                        &&& answer is Err
                        &&& #[trigger] call_ensures(
                            Vec::<u16>::try_reserve,
                            (free, (old(self)@.slots.len() + 1) as usize),
                            answer,
                        )
                    }
            },
    {
        if self.live == self.max_live || self.free.len() > 0 || self.slots.len()
            >= self.max_live as usize {
            return true;
        }
        proof {
            super::laws::lemma_counts(self@);
        }
        if !self.slots.try_reserve(1) {
            return false;
        }
        let additional = self.slots.len() + 1 - self.free.len();
        self.free.try_reserve(additional)
    }

    /// Inserts one value, given whether storage for a new slot was reserved.
    pub fn insert_reserved(&mut self, kind: ResourceType, value: T, reserved: bool) -> (result:
        Result<ResourceHandle, ResourceError>)
        requires
            old(self).wf(),
            reserved && !old(self)@.is_full() && old(self)@.needs_slot() ==> old(self).has_room(),
        ensures
            final(self).wf(),
            final(self).storage() == old(self).storage(),
            final(self)@ == old(self)@.after(Operation::Insert { kind, value, reserved }),
            match result {
                Ok(handle) => {
                    &&& !old(self)@.is_full()
                    &&& old(self)@.needs_slot() ==> reserved
                    &&& handle.raw() == old(self)@.next_handle()
                    &&& !old(self)@.resources().contains_key(handle.raw())
                    &&& final(self)@ == old(self)@.inserted(kind, value)
                    &&& handle.raw() != 0
                    &&& handle.raw() == {
                        if old(self)@.free.len() == 0 {
                            old(self)@.slots.len() as int + 1
                        } else {
                            let slot = old(self)@.free.last();
                            old(self)@.slots[slot].generation * super::layout::span(
                                old(self)@.max_live,
                            ) + slot + 1
                        }
                    }
                    &&& final(self).account() == (Account {
                        taken: old(self).account().taken.push(value),
                        ..old(self).account()
                    })
                    &&& final(self)@.resources() == old(self)@.resources().insert(
                        handle.raw(),
                        Resource { kind, value },
                    )
                },
                Err(error) => {
                    &&& final(self)@ == old(self)@
                    &&& final(self).account() == (Account {
                        taken: old(self).account().taken.push(value),
                        destroyed: old(self).account().destroyed.push(value),
                        ..old(self).account()
                    })
                    &&& call_ensures(Result::<T, ()>::err, (Ok::<T, ()>(value),), None::<()>)
                    &&& if old(self)@.is_full() {
                        error == ResourceError::Full
                    } else {
                        &&& old(self)@.needs_slot()
                        &&& !reserved
                        &&& error == ResourceError::Allocation
                    }
                },
            },
            (result == Err::<ResourceHandle, ResourceError>(ResourceError::Full)) <==> {
                ||| old(self)@.resources().len() == old(self)@.max_live
                ||| old(self)@.free.len() == 0 && old(self)@.slots.len() >= old(self)@.max_live
            },
            final(self)@.max_live == old(self)@.max_live,
            final(self)@.slots.len() == old(self)@.slots.len() + (if result is Ok && old(
                self,
            )@.free.len() == 0 {
                1int
            } else {
                0
            }),
    {
        let ghost before = self@;
        let ghost offered = value;
        self.ledger.take_in(&value);
        let ghost taken = Account {
            taken: old(self).account().taken.push(offered),
            ..old(self).account()
        };
        let ghost rejected = Account {
            destroyed: old(self).account().destroyed.push(offered),
            ..taken
        };
        assert(self.account() =~= taken);
        if self.live == self.max_live {
            self.ledger.destroy(value);
            assert(self@ == before && self.account() =~= rejected);
            return Err(ResourceError::Full);
        }
        let index = match self.free.pop() {
            Some(index) => index,
            None => {
                if self.slots.len() >= self.max_live as usize {
                    self.ledger.destroy(value);
                    assert(self@ == before && self.account() =~= rejected);
                    return Err(ResourceError::Full);
                }
                if !reserved {
                    self.ledger.destroy(value);
                    assert(self@ == before && self.account() =~= rejected);
                    return Err(ResourceError::Allocation);
                }
                let index = self.slots.len() as u16;
                self.slots.push(Slot { generation: 0, entry: None });
                index
            },
        };
        proof {
            super::laws::lemma_inserted(before, kind, offered);
            super::laws::lemma_counts(before);
            super::laws::lemma_handle_splits(before, before.next_slot(), before.next_generation());
            // The slot to fill is vacant.
            if !before.needs_slot() {
                assert(before.free[before.free.len() - 1] == index);
                assert(before.slots[index as int] == self.slots@[index as int].model());
            }
            assert(self.slots@[index as int].entry is None);
        }
        let slot = self.slots.at_mut(index as usize);
        slot.entry = Some(Entry { kind, value });
        self.live += 1;
        let generation = slot.generation;
        proof {
            super::layout::lemma_span_bounds(self.max_live as nat);
            super::layout::lemma_join_word(
                self.max_live as nat,
                self.slot_bits,
                generation,
                (index + 1) as u32,
            );
            assert(self@ == before.inserted(kind, offered));
            assert(self.account() =~= taken);
            assert(0 * super::layout::span(self.max_live as nat) == 0) by (nonlinear_arith);
            assert((generation << self.slot_bits) | (index + 1) as u32 == before.next_handle());
        }
        Ok(ResourceHandle::from_raw((generation << self.slot_bits) | (u32::from(index) + 1)))
    }

    /// Takes a live value out of its slot. Its place in the account is up to
    /// the caller.
    fn take_out(&mut self, handle: ResourceHandle, kind: ResourceType) -> (result: Result<
        T,
        ResourceError,
    >)
        requires
            old(self).wf(),
        ensures
            final(self).storage() == old(self).storage(),
            final(self).account() == old(self).account(),
            final(self)@.max_live == old(self)@.max_live,
            final(self)@.slots.len() == old(self)@.slots.len(),
            match result {
                Ok(value) => {
                    &&& final(self)@.wf()
                    &&& final(self).fields_inv(1)
                    &&& old(self)@.lookup(handle.raw(), kind) == Ok::<T, ResourceError>(value)
                    &&& final(self)@ == old(self)@.removed(handle.raw())
                    &&& final(self)@.resources() == old(self)@.resources().remove(handle.raw())
                },
                Err(error) => {
                    &&& final(self).wf()
                    &&& old(self)@.lookup(handle.raw(), kind) == Err::<T, ResourceError>(error)
                    &&& final(self)@ == old(self)@
                },
            },
    {
        let index = match self.validate(handle, kind) {
            Ok(index) => index,
            Err(error) => return Err(error),
        };
        let ghost before = self@;
        proof {
            super::laws::lemma_removed(before, handle.raw());
            super::laws::lemma_counts(before);
            super::laws::lemma_counts(before.removed(handle.raw()));
            assert(before.slots[index as int] == self.slots@[index as int].model());
            super::layout::lemma_span_bounds(self.max_live as nat);
            super::layout::lemma_split_word(
                self.max_live as nat,
                self.slot_bits,
                self.slot_mask,
                u32::MAX,
            );
        }
        let slot = self.slots.at_mut(index);
        let entry = slot.entry.take().expect("validated live slot");
        self.live -= 1;
        let max_generation = u32::MAX >> self.slot_bits;
        if slot.generation < max_generation {
            slot.generation += 1;
            // Room was reserved when this slot was created.
            self.free.push(index as u16);
        }
        assert(self@ == before.removed(handle.raw()));
        Ok(entry.value)
    }

    /// Transfers ownership of a live value out of the table.
    pub fn remove(&mut self, handle: ResourceHandle, kind: ResourceType) -> (result: Result<
        T,
        ResourceError,
    >)
        requires
            old(self).wf(),
        ensures
            final(self).wf(),
            final(self).storage() == old(self).storage(),
            final(self)@ == old(self)@.after(Operation::Remove { raw: handle.raw(), kind }),
            match result {
                Ok(value) => {
                    &&& old(self)@.lookup(handle.raw(), kind) == Ok::<T, ResourceError>(value)
                    &&& final(self)@ == old(self)@.removed(handle.raw())
                    &&& final(self)@.resources() == old(self)@.resources().remove(handle.raw())
                    &&& final(self).account() == (Account {
                        returned: old(self).account().returned.push(value),
                        ..old(self).account()
                    })
                },
                Err(error) => {
                    &&& old(self)@.lookup(handle.raw(), kind) == Err::<T, ResourceError>(error)
                    &&& final(self)@ == old(self)@
                    &&& final(self).account() == old(self).account()
                },
            },
            match result {
                Ok(value) => {
                    &&& old(self)@.resources().contains_key(handle.raw())
                    &&& old(self)@.resources()[handle.raw()].kind == kind
                    &&& old(self)@.resources()[handle.raw()].value == value
                },
                Err(error) => if old(self)@.resources().contains_key(handle.raw()) {
                    &&& old(self)@.resources()[handle.raw()].kind != kind
                    &&& error == ResourceError::WrongType
                } else {
                    error == ResourceError::InvalidHandle
                },
            },
            final(self)@.max_live == old(self)@.max_live,
            final(self)@.slots.len() == old(self)@.slots.len(),
    {
        match self.take_out(handle, kind) {
            Ok(value) => Ok(self.ledger.give_back(value)),
            Err(error) => Err(error),
        }
    }

    /// Removes and drops a live value exactly once.
    pub fn drop_handle(&mut self, handle: ResourceHandle, kind: ResourceType) -> (result: Result<
        (),
        ResourceError,
    >)
        requires
            old(self).wf(),
        ensures
            final(self).wf(),
            final(self).storage() == old(self).storage(),
            final(self)@ == old(self)@.after(Operation::Remove { raw: handle.raw(), kind }),
            match result {
                Ok(()) => {
                    let value = old(self)@.resources()[handle.raw()].value;
                    &&& old(self)@.lookup(handle.raw(), kind) is Ok
                    &&& final(self)@ == old(self)@.removed(handle.raw())
                    &&& final(self)@.resources() == old(self)@.resources().remove(handle.raw())
                    &&& final(self).account() == (Account {
                        destroyed: old(self).account().destroyed.push(value),
                        ..old(self).account()
                    })
                    &&& call_ensures(Result::<T, ()>::err, (Ok::<T, ()>(value),), None::<()>)
                },
                Err(error) => {
                    &&& old(self)@.lookup(handle.raw(), kind) == Err::<T, ResourceError>(error)
                    &&& final(self)@ == old(self)@
                    &&& final(self).account() == old(self).account()
                },
            },
            match result {
                Ok(()) => {
                    &&& old(self)@.resources().contains_key(handle.raw())
                    &&& old(self)@.resources()[handle.raw()].kind == kind
                },
                Err(error) => if old(self)@.resources().contains_key(handle.raw()) {
                    &&& old(self)@.resources()[handle.raw()].kind != kind
                    &&& error == ResourceError::WrongType
                } else {
                    error == ResourceError::InvalidHandle
                },
            },
            final(self)@.max_live == old(self)@.max_live,
            final(self)@.slots.len() == old(self)@.slots.len(),
    {
        match self.take_out(handle, kind) {
            Ok(value) => {
                self.ledger.destroy(value);
                Ok(())
            },
            Err(error) => Err(error),
        }
    }

    /// Finds the slot of a live resource after checking its handle and type.
    fn validate(&self, handle: ResourceHandle, kind: ResourceType) -> (result: Result<
        usize,
        ResourceError,
    >)
        requires
            self.wf(),
        ensures
            match result {
                Ok(index) => self@.lookup(handle.raw(), kind) is Ok && index == self@.slot_of(
                    handle.raw(),
                ),
                Err(error) => self@.lookup(handle.raw(), kind) == Err::<T, ResourceError>(error),
            },
            match result {
                Ok(index) => {
                    &&& self@.resources().contains_key(handle.raw())
                    &&& self@.resources()[handle.raw()].kind == kind
                    &&& index == handle.raw() as nat % super::layout::span(self@.max_live) - 1
                },
                Err(error) => if self@.resources().contains_key(handle.raw()) {
                    &&& self@.resources()[handle.raw()].kind != kind
                    &&& error == ResourceError::WrongType
                } else {
                    error == ResourceError::InvalidHandle
                },
            },
    {
        let raw = handle.into_raw();
        proof {
            super::layout::lemma_split_word(
                self.max_live as nat,
                self.slot_bits,
                self.slot_mask,
                raw,
            );
            super::layout::lemma_span_bounds(self.max_live as nat);
        }
        let slot_number = raw & self.slot_mask;
        let index = match slot_number.checked_sub(1) {
            Some(index) => index as usize,
            None => return Err(ResourceError::InvalidHandle),
        };
        if index >= self.slots.len() {
            return Err(ResourceError::InvalidHandle);
        }
        let slot = self.slots.at(index);
        assert(self@.slots[index as int] == slot.model());
        if slot.generation != raw >> self.slot_bits {
            return Err(ResourceError::InvalidHandle);
        }
        match &slot.entry {
            Some(entry) => {
                if entry.kind != kind {
                    Err(ResourceError::WrongType)
                } else {
                    Ok(index)
                }
            },
            None => Err(ResourceError::InvalidHandle),
        }
    }

    /// Borrows a live value after checking its handle and WIT resource type.
    pub fn get(&self, handle: ResourceHandle, kind: ResourceType) -> (result: Result<
        &T,
        ResourceError,
    >)
        requires
            self.wf(),
        ensures
            match result {
                Ok(value) => self@.lookup(handle.raw(), kind) == Ok::<T, ResourceError>(*value),
                Err(error) => self@.lookup(handle.raw(), kind) == Err::<T, ResourceError>(error),
            },
            match result {
                Ok(value) => {
                    &&& self@.resources().contains_key(handle.raw())
                    &&& self@.resources()[handle.raw()].kind == kind
                    &&& self@.resources()[handle.raw()].value == *value
                },
                Err(error) => if self@.resources().contains_key(handle.raw()) {
                    &&& self@.resources()[handle.raw()].kind != kind
                    &&& error == ResourceError::WrongType
                } else {
                    error == ResourceError::InvalidHandle
                },
            },
    {
        let index = match self.validate(handle, kind) {
            Ok(index) => index,
            Err(error) => return Err(error),
        };
        let slot = self.slots.at(index);
        assert(self@.slots[index as int] == slot.model());
        Ok(&slot.entry.as_ref().expect("validated live slot").value)
    }

    /// Mutably borrows a live value after checking its handle and type.
    pub fn get_mut(&mut self, handle: ResourceHandle, kind: ResourceType) -> (result: Result<
        &mut T,
        ResourceError,
    >)
        requires
            old(self).wf(),
        ensures
            final(self).wf(),
            final(self).storage() == old(self).storage(),
            match result {
                Ok(value) => {
                    &&& old(self)@.lookup(handle.raw(), kind) == Ok::<T, ResourceError>(*value)
                    &&& final(self)@ == old(self)@.after(
                        Operation::Write { raw: handle.raw(), kind, value: *final(value) },
                    )
                    &&& final(self)@.resources() == old(self)@.resources().insert(
                        handle.raw(),
                        Resource { kind, value: *final(value) },
                    )
                },
                Err(error) => {
                    &&& old(self)@.lookup(handle.raw(), kind) == Err::<T, ResourceError>(error)
                    &&& final(self)@ == old(self)@
                },
            },
            final(self).account() == old(self).account(),
            match result {
                Ok(value) => {
                    &&& old(self)@.resources().contains_key(handle.raw())
                    &&& old(self)@.resources()[handle.raw()].kind == kind
                    &&& old(self)@.resources()[handle.raw()].value == *value
                    &&& final(self)@ == old(self)@.written(handle.raw(), *final(value))
                },
                Err(error) => if old(self)@.resources().contains_key(handle.raw()) {
                    &&& old(self)@.resources()[handle.raw()].kind != kind
                    &&& error == ResourceError::WrongType
                } else {
                    error == ResourceError::InvalidHandle
                },
            },
            final(self)@.max_live == old(self)@.max_live,
            final(self)@.slots.len() == old(self)@.slots.len(),
    {
        let index = match self.validate(handle, kind) {
            Ok(index) => index,
            Err(error) => return Err(error),
        };
        assert(self@.slots[index as int] == self.slots@[index as int].model());
        let value = &mut self.slots.at_mut(index).entry.as_mut().expect(
            "validated live slot",
        ).value;
        proof {
            super::laws::lemma_written(old(self)@, handle.raw(), *final(value));
            super::laws::lemma_counts(old(self)@);
            assert(after_borrow(self)@ == old(self)@.written(handle.raw(), *final(value)));
        }
        Ok(value)
    }
}

} // verus!
