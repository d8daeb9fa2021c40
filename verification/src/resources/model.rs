//! The mathematical model of a resource table.
//!
//! A table is a sequence of slots, a stack of slots to reuse and a live cap.
//! What callers observe is the finite map from live handle words to the
//! resources that they name.

use super::error::ResourceError;
use super::ids::ResourceType;
use vstd::prelude::*;

verus! {

/// A live resource: its type and the host value.
pub struct Resource<T> {
    pub kind: ResourceType,
    pub value: T,
}

/// One slot: the generation that its current or next handle carries, and the
/// resource that it holds, if any.
pub struct SlotModel<T> {
    pub generation: nat,
    pub resource: Option<Resource<T>>,
}

/// The state of a table.
#[verifier::ext_equal]
pub struct TableModel<T> {
    /// The cap on live resources and on slots.
    pub max_live: nat,
    /// The slots, in the order of their creation.
    pub slots: Seq<SlotModel<T>>,
    /// The vacant slots to reuse; the last one is reused first.
    pub free: Seq<int>,
}

/// What became of the values that were handed to a table.
#[verifier::ext_equal]
pub struct Account<T> {
    /// Every value that was handed to an insertion.
    pub taken: Seq<T>,
    /// The values that removals returned to a caller.
    pub returned: Seq<T>,
    /// The values that the table destroyed.
    pub destroyed: Seq<T>,
}

/// An operation on a table, with the outcome of what the table cannot decide.
pub enum Operation<T> {
    /// Insert a resource; `reserved` tells whether storage for a new slot could
    /// be had.
    Insert { kind: ResourceType, value: T, reserved: bool },
    /// Replace the value that a handle names.
    Write { raw: u32, kind: ResourceType, value: T },
    /// Take out the resource that a handle names.
    Remove { raw: u32, kind: ResourceType },
}

impl<T> TableModel<T> {
    /// The table that holds nothing.
    pub open spec fn empty(max_live: nat) -> Self {
        TableModel { max_live, slots: Seq::empty(), free: Seq::empty() }
    }

    /// The number of distinct slot numbers in a handle word.
    pub open spec fn span(self) -> nat {
        super::layout::span(self.max_live)
    }

    /// The last generation that fits above a slot number in a word.
    pub open spec fn max_generation(self) -> nat {
        u32::MAX as nat / self.span()
    }

    /// The handle word of a slot in a generation. Slot numbers start at one.
    pub open spec fn handle(self, slot: int, generation: nat) -> u32 {
        (generation * self.span() + slot + 1) as u32
    }

    /// The slot that a word points to; negative where the slot number is zero.
    pub open spec fn slot_of(self, raw: u32) -> int {
        raw as nat % self.span() - 1
    }

    /// The generation that a word carries.
    pub open spec fn generation_of(self, raw: u32) -> nat {
        raw as nat / self.span()
    }

    /// Whether a word points to one of the slots.
    pub open spec fn has_slot(self, raw: u32) -> bool {
        0 <= self.slot_of(raw) < self.slots.len()
    }

    /// Whether a word names a resource.
    pub open spec fn is_live(self, raw: u32) -> bool {
        &&& self.has_slot(raw)
        &&& self.slots[self.slot_of(raw)].resource is Some
        &&& self.slots[self.slot_of(raw)].generation == self.generation_of(raw)
    }

    /// The live resources by their handle words.
    pub open spec fn resources(self) -> Map<u32, Resource<T>> {
        Map::new(
            |raw: u32| self.is_live(raw),
            |raw: u32| self.slots[self.slot_of(raw)].resource->0,
        )
    }

    /// The slots that hold a resource.
    pub open spec fn occupied(self) -> Set<int> {
        vstd::set_lib::set_int_range(0, self.slots.len() as int).filter(
            |i: int| self.slots[i].resource is Some,
        )
    }

    /// What access to a word as a resource of the given type yields.
    pub open spec fn lookup(self, raw: u32, kind: ResourceType) -> Result<T, ResourceError> {
        if !self.resources().contains_key(raw) {
            Err(ResourceError::InvalidHandle)
        } else if self.resources()[raw].kind != kind {
            Err(ResourceError::WrongType)
        } else {
            Ok(self.resources()[raw].value)
        }
    }

    /// The words that are accepted under some type.
    pub open spec fn accepted(self) -> Set<u32> {
        Set::new(|raw: u32| exists|kind: ResourceType| self.lookup(raw, kind) is Ok)
    }

    /// Whether an insertion would have to create a slot.
    pub open spec fn needs_slot(self) -> bool {
        self.free.len() == 0
    }

    /// Whether no resource can be inserted: every resource that the cap allows
    /// is live, or every slot that it allows is occupied or retired.
    pub open spec fn is_full(self) -> bool {
        ||| self.resources().len() == self.max_live
        ||| self.needs_slot() && self.slots.len() >= self.max_live
    }

    /// The slot that the next insertion fills.
    pub open spec fn next_slot(self) -> int {
        if self.needs_slot() {
            self.slots.len() as int
        } else {
            self.free.last()
        }
    }

    /// The generation of the next insertion's handle.
    pub open spec fn next_generation(self) -> nat {
        if self.needs_slot() {
            0
        } else {
            self.slots[self.free.last()].generation
        }
    }

    /// The handle word of the next insertion.
    pub open spec fn next_handle(self) -> u32 {
        self.handle(self.next_slot(), self.next_generation())
    }

    /// The table after an insertion.
    pub open spec fn inserted(self, kind: ResourceType, value: T) -> Self {
        let filled = SlotModel {
            generation: self.next_generation(),
            resource: Some(Resource { kind, value }),
        };
        if self.needs_slot() {
            TableModel { slots: self.slots.push(filled), ..self }
        } else {
            TableModel {
                slots: self.slots.update(self.next_slot(), filled),
                free: self.free.drop_last(),
                ..self
            }
        }
    }

    /// The table after the value that a live word names was replaced.
    pub open spec fn written(self, raw: u32, value: T) -> Self {
        let i = self.slot_of(raw);
        let kind = self.slots[i].resource->0.kind;
        TableModel {
            slots: self.slots.update(
                i,
                SlotModel { resource: Some(Resource { kind, value }), ..self.slots[i] },
            ),
            ..self
        }
    }

    /// The table after the resource that a live word names was taken out. The
    /// slot moves to its next generation and is free again; a slot in its last
    /// generation is retired.
    pub open spec fn removed(self, raw: u32) -> Self {
        let i = self.slot_of(raw);
        let generation = self.slots[i].generation;
        if generation < self.max_generation() {
            TableModel {
                slots: self.slots.update(
                    i,
                    SlotModel { generation: generation + 1, resource: None },
                ),
                free: self.free.push(i),
                ..self
            }
        } else {
            TableModel {
                slots: self.slots.update(i, SlotModel { generation, resource: None }),
                ..self
            }
        }
    }

    /// Whether the operation inserts a resource.
    pub open spec fn inserts(self, operation: Operation<T>) -> bool {
        match operation {
            Operation::Insert { reserved, .. } => {
                &&& !self.is_full()
                &&& self.needs_slot() ==> reserved
            },
            _ => false,
        }
    }

    /// Whether the operation takes a resource out.
    pub open spec fn removes(self, operation: Operation<T>) -> bool {
        match operation {
            Operation::Remove { raw, kind } => self.lookup(raw, kind) is Ok,
            _ => false,
        }
    }

    /// Whether the operation inserts a resource and returns the word for it.
    pub open spec fn issues(self, operation: Operation<T>, raw: u32) -> bool {
        self.inserts(operation) && raw == self.next_handle()
    }

    /// Whether the operation names the word and is accepted for it: it replaces
    /// the value or takes the resource out.
    pub open spec fn acts_on(self, operation: Operation<T>, raw: u32) -> bool {
        match operation {
            Operation::Insert { .. } => false,
            Operation::Write { raw: named, kind, .. } => {
                named == raw && self.lookup(named, kind) is Ok
            },
            Operation::Remove { raw: named, kind } => {
                named == raw && self.lookup(named, kind) is Ok
            },
        }
    }

    /// Whether the operation takes a resource out of the slot before the slot's
    /// last generation.
    pub open spec fn vacates(self, operation: Operation<T>, slot: int) -> bool {
        match operation {
            Operation::Remove { raw, .. } => {
                &&& self.removes(operation)
                &&& self.slot_of(raw) == slot
                &&& self.generation_of(raw) < self.max_generation()
            },
            _ => false,
        }
    }

    /// Whether the operation inserts a resource and returns a word with the
    /// slot's number.
    pub open spec fn fills(self, operation: Operation<T>, slot: int) -> bool {
        self.inserts(operation) && self.slot_of(self.next_handle()) == slot
    }

    /// The table after an operation; one that fails changes nothing.
    pub open spec fn after(self, operation: Operation<T>) -> Self {
        match operation {
            Operation::Insert { kind, value, .. } => {
                if self.inserts(operation) {
                    self.inserted(kind, value)
                } else {
                    self
                }
            },
            Operation::Write { raw, kind, value } => {
                if self.lookup(raw, kind) is Ok {
                    self.written(raw, value)
                } else {
                    self
                }
            },
            Operation::Remove { raw, .. } => {
                if self.removes(operation) {
                    self.removed(raw)
                } else {
                    self
                }
            },
        }
    }

    /// The table after a sequence of operations.
    pub open spec fn after_all(self, operations: Seq<Operation<T>>) -> Self
        decreases operations.len(),
    {
        if operations.len() == 0 {
            self
        } else {
            self.after_all(operations.drop_last()).after(operations.last())
        }
    }

    /// How many of the operations, done in turn, insert a resource.
    pub open spec fn insertions(self, operations: Seq<Operation<T>>) -> nat
        decreases operations.len(),
    {
        if operations.len() == 0 {
            0
        } else {
            let earlier = operations.drop_last();
            let last: nat = if self.after_all(earlier).inserts(operations.last()) {
                1
            } else {
                0
            };
            self.insertions(earlier) + last
        }
    }

    /// How many of the operations, done in turn, take a resource out.
    pub open spec fn removals(self, operations: Seq<Operation<T>>) -> nat
        decreases operations.len(),
    {
        if operations.len() == 0 {
            0
        } else {
            let earlier = operations.drop_last();
            let last: nat = if self.after_all(earlier).removes(operations.last()) {
                1
            } else {
                0
            };
            self.removals(earlier) + last
        }
    }

    /// Whether the operation at `k` of those done in turn vacates the slot and
    /// none after it fills the slot.
    pub open spec fn vacated_at(self, operations: Seq<Operation<T>>, k: int, slot: int) -> bool {
        &&& 0 <= k < operations.len()
        &&& self.after_all(operations.take(k)).vacates(operations[k], slot)
        &&& forall|j: int|
            k < j < operations.len() ==> !(#[trigger] self.after_all(operations.take(j))).fills(
                operations[j],
                slot,
            )
    }

    /// Whether an insertion may have returned a word: its generation is past in
    /// its slot, or is the slot's own and the slot is not waiting to be reused.
    pub open spec fn is_issued(self, raw: u32) -> bool {
        &&& self.has_slot(raw)
        &&& {
            let i = self.slot_of(raw);
            ||| self.generation_of(raw) < self.slots[i].generation
            ||| self.generation_of(raw) == self.slots[i].generation && !self.free.contains(i)
        }
    }

    /// Whether a word was issued and no longer names its resource.
    pub open spec fn is_stale(self, raw: u32) -> bool {
        self.is_issued(raw) && !self.is_live(raw)
    }

    /// Whether a slot was vacated in its last generation.
    pub open spec fn is_retired(self, slot: int) -> bool {
        &&& 0 <= slot < self.slots.len()
        &&& self.slots[slot].resource is None
        &&& !self.free.contains(slot)
    }

    /// The slots that were vacated in their last generation.
    pub open spec fn retired(self) -> Set<int> {
        vstd::set_lib::set_int_range(0, self.slots.len() as int).filter(
            |i: int| self.is_retired(i),
        )
    }

    /// What holds of every table.
    pub open spec fn wf(self) -> bool {
        &&& 0 < self.max_live <= u16::MAX
        &&& self.slots.len() <= self.max_live
        &&& forall|i: int|
            0 <= i < self.slots.len() ==> (#[trigger] self.slots[i]).generation
                <= self.max_generation()
        &&& self.free.no_duplicates()
        &&& forall|k: int|
            0 <= k < self.free.len() ==> 0 <= #[trigger] self.free[k] < self.slots.len()
                && self.slots[self.free[k]].resource is None
        &&& forall|i: int| #[trigger]
            self.is_retired(i) ==> self.slots[i].generation == self.max_generation()
    }
}

} // verus!
