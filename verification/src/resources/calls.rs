//! Laws of the table's calls.
//!
//! Each law takes what went into one or more calls and what came out of them,
//! and says how they relate. A call is given by the relation between its
//! arguments and its result; where it takes the table by mutable reference,
//! `before` and `after` are the table's values around it.

use super::error::ResourceError;
use super::ids::{ResourceHandle, ResourceType};
use super::layout::span;
use super::model::Resource;
use super::table::{slot_indices, slot_models, ResourceTable, Slot};
use std::collections::TryReserveError;
use vstd::prelude::*;

verus! {

/// A new table has the cap that was asked for, holds nothing, and has no value
/// on its account.
pub proof fn law_new_table_has_the_given_cap<T>(max_live: u16, table: ResourceTable<T>)
    requires
        max_live > 0,
        call_ensures(ResourceTable::<T>::new, (max_live,), table),
    ensures
        table.wf(),
        table@.max_live == max_live,
        table@.resources().len() == 0,
        table@.retired().len() == 0,
        table.account().taken.len() == 0,
        table.account().returned.len() == 0,
        table.account().destroyed.len() == 0,
{
    super::laws::lemma_counts(table@);
}

/// How many of the results are handles.
pub open spec fn accepted(results: Seq<Result<ResourceHandle, ResourceError>>) -> nat
    decreases results.len(),
{
    if results.len() == 0 {
        0
    } else if results.last() is Ok {
        accepted(results.drop_last()) + 1
    } else {
        accepted(results.drop_last())
    }
}

/// One insertion into a table from which nothing was removed: it adds a slot or
/// changes nothing.
proof fn lemma_insertion_without_removals<T>(
    before: ResourceTable<T>,
    kind: ResourceType,
    value: T,
    result: Result<ResourceHandle, ResourceError>,
    after: ResourceTable<T>,
)
    requires
        before.wf(),
        before@.free.len() == 0,
        before@.slots.len() == before@.resources().len(),
        exists|call: &mut ResourceTable<T>|
            {
                &&& *call == before
                &&& *final(call) == after
                &&& #[trigger] call_ensures(
                    ResourceTable::<T>::insert,
                    (call, kind, value),
                    result,
                )
            },
    ensures
        after.wf(),
        after@.max_live == before@.max_live,
        after@.free.len() == 0,
        after@.slots.len() == after@.resources().len(),
        after@.resources().len() == before@.resources().len() + (if result is Ok {
            1int
        } else {
            0
        }),
        after@.resources().len() <= after@.max_live,
        result == Err::<ResourceHandle, ResourceError>(ResourceError::Full)
            <==> before@.resources().len() == before@.max_live,
        result is Ok ==> result->Ok_0.raw() == before@.resources().len() + 1,
{
    super::laws::lemma_counts(before@);
    super::laws::lemma_counts(after@);
}

/// The tables along a run of insertions into a new one.
proof fn lemma_run_of_insertions<T>(
    max_live: u16,
    tables: Seq<ResourceTable<T>>,
    calls: Seq<&mut ResourceTable<T>>,
    kinds: Seq<ResourceType>,
    values: Seq<T>,
    results: Seq<Result<ResourceHandle, ResourceError>>,
    n: int,
)
    requires
        max_live > 0,
        0 <= n < tables.len(),
        tables.len() == results.len() + 1,
        calls.len() == results.len(),
        kinds.len() == results.len(),
        values.len() == results.len(),
        call_ensures(ResourceTable::<T>::new, (max_live,), tables[0]),
        forall|k: int|
            #![trigger calls[k]]
            0 <= k < results.len() ==> {
                &&& *calls[k] == tables[k]
                &&& *final(calls[k]) == tables[k + 1]
                &&& call_ensures(
                    ResourceTable::<T>::insert,
                    (calls[k], kinds[k], values[k]),
                    results[k],
                )
            },
    ensures
        tables[n].wf(),
        tables[n]@.max_live == max_live,
        tables[n]@.free.len() == 0,
        tables[n]@.slots.len() == accepted(results.take(n)),
        tables[n]@.resources().len() == accepted(results.take(n)),
        accepted(results.take(n)) <= max_live,
    decreases n,
{
    if n == 0 {
        law_new_table_has_the_given_cap(max_live, tables[0]);
    } else {
        let k = n - 1;
        lemma_run_of_insertions(max_live, tables, calls, kinds, values, results, k);
        assert(results[k] == results.take(n).last());
        assert(results.take(n).drop_last() =~= results.take(k));
        assert(*calls[k] == tables[k]);
        lemma_insertion_without_removals(tables[k], kinds[k], values[k], results[k], tables[k + 1]);
    }
}

/// Insertions into a new table with nothing removed, each into the table that
/// the one before it left: as many succeed as the cap
/// says, with the words one, two, three and so on, and the table is full from
/// then on and not before.
pub proof fn law_new_table_takes_as_many_as_its_cap<T>(
    max_live: u16,
    tables: Seq<ResourceTable<T>>,
    calls: Seq<&mut ResourceTable<T>>,
    kinds: Seq<ResourceType>,
    values: Seq<T>,
    results: Seq<Result<ResourceHandle, ResourceError>>,
    n: int,
)
    requires
        max_live > 0,
        0 <= n < results.len(),
        tables.len() == results.len() + 1,
        calls.len() == results.len(),
        kinds.len() == results.len(),
        values.len() == results.len(),
        call_ensures(ResourceTable::<T>::new, (max_live,), tables[0]),
        forall|k: int|
            #![trigger calls[k]]
            0 <= k < results.len() ==> {
                &&& *calls[k] == tables[k]
                &&& *final(calls[k]) == tables[k + 1]
                &&& call_ensures(
                    ResourceTable::<T>::insert,
                    (calls[k], kinds[k], values[k]),
                    results[k],
                )
            },
    ensures
        accepted(results.take(n)) <= max_live,
        results[n] == Err::<ResourceHandle, ResourceError>(ResourceError::Full) <==> accepted(
            results.take(n),
        ) == max_live,
        results[n] is Ok ==> results[n]->Ok_0.raw() == accepted(results.take(n)) + 1,
{
    lemma_run_of_insertions(max_live, tables, calls, kinds, values, results, n);
    assert(*calls[n] == tables[n]);
    lemma_insertion_without_removals(tables[n], kinds[n], values[n], results[n], tables[n + 1]);
}

/// An insertion into a table that is not full succeeds if the allocator grants
/// what it is asked for: one more slot, and one more place among the slots to
/// reuse than there are slots.
pub proof fn law_insert_fails_only_when_full_or_refused<T>(
    before: ResourceTable<T>,
    kind: ResourceType,
    value: T,
    result: Result<ResourceHandle, ResourceError>,
    after: ResourceTable<T>,
)
    requires
        before.wf(),
        before@.resources().len() + before@.retired().len() < before@.max_live,
        forall|slots: &mut Vec<Slot<T>>, answer: Result<(), TryReserveError>|
            slot_models(slots@) == before@.slots && #[trigger] call_ensures(
                Vec::<Slot<T>>::try_reserve,
                (slots, 1usize),
                answer,
            ) ==> answer is Ok,
        forall|free: &mut Vec<u16>, answer: Result<(), TryReserveError>|
            slot_indices(free@) == before@.free && #[trigger] call_ensures(
                Vec::<u16>::try_reserve,
                (free, (before@.slots.len() + 1) as usize),
                answer,
            ) ==> answer is Ok,
        exists|call: &mut ResourceTable<T>|
            {
                &&& *call == before
                &&& *final(call) == after
                &&& #[trigger] call_ensures(
                    ResourceTable::<T>::insert,
                    (call, kind, value),
                    result,
                )
            },
    ensures
        result is Ok,
{
    super::laws::lemma_full_iff_cap_is_used_up(before@);
}

/// A value that was handed to an insertion is afterwards held by the table
/// under the returned word, or was destroyed; the insertion itself adds no other
/// value to either.
pub proof fn law_insert_holds_or_destroys<T>(
    before: ResourceTable<T>,
    kind: ResourceType,
    value: T,
    result: Result<ResourceHandle, ResourceError>,
    after: ResourceTable<T>,
)
    requires
        before.wf(),
        exists|call: &mut ResourceTable<T>|
            {
                &&& *call == before
                &&& *final(call) == after
                &&& #[trigger] call_ensures(
                    ResourceTable::<T>::insert,
                    (call, kind, value),
                    result,
                )
            },
    ensures
        after.wf(),
        after.account().taken == before.account().taken.push(value),
        after.account().returned == before.account().returned,
        match result {
            Ok(handle) => {
                &&& after.account().destroyed == before.account().destroyed
                &&& !before@.resources().contains_key(handle.raw())
                &&& after@.resources() == before@.resources().insert(
                    handle.raw(),
                    Resource { kind, value },
                )
            },
            Err(_) => {
                &&& after.account().destroyed == before.account().destroyed.push(value)
                &&& call_ensures(Result::<T, ()>::err, (Ok::<T, ()>(value),), None::<()>)
                &&& after@.resources() == before@.resources()
            },
        },
{
}

/// A successful `drop_handle` moves the value that the handle named from held to
/// destroyed; one that fails moves nothing.
pub proof fn law_drop_handle_destroys_what_it_named<T>(
    before: ResourceTable<T>,
    handle: ResourceHandle,
    kind: ResourceType,
    result: Result<(), ResourceError>,
    after: ResourceTable<T>,
)
    requires
        before.wf(),
        exists|call: &mut ResourceTable<T>|
            {
                &&& *call == before
                &&& *final(call) == after
                &&& #[trigger] call_ensures(
                    ResourceTable::<T>::drop_handle,
                    (call, handle, kind),
                    result,
                )
            },
    ensures
        after.wf(),
        after.account().taken == before.account().taken,
        after.account().returned == before.account().returned,
        result is Ok <==> before@.resources().contains_key(handle.raw())
            && before@.resources()[handle.raw()].kind == kind,
        result is Ok ==> {
            let value = before@.resources()[handle.raw()].value;
            &&& after.account().destroyed == before.account().destroyed.push(value)
            &&& call_ensures(Result::<T, ()>::err, (Ok::<T, ()>(value),), None::<()>)
            &&& after@.resources() == before@.resources().remove(handle.raw())
        },
        result is Err ==> {
            &&& after.account().destroyed == before.account().destroyed
            &&& after@.resources() == before@.resources()
        },
{
}

/// A handle drops its value once: after a successful `drop_handle`, a second one
/// with the same handle is refused and destroys nothing.
pub proof fn law_second_drop_destroys_nothing<T>(
    first: ResourceTable<T>,
    handle: ResourceHandle,
    kind: ResourceType,
    second: ResourceTable<T>,
    again: ResourceType,
    result: Result<(), ResourceError>,
    third: ResourceTable<T>,
)
    requires
        first.wf(),
        exists|call: &mut ResourceTable<T>|
            {
                &&& *call == first
                &&& *final(call) == second
                &&& #[trigger] call_ensures(
                    ResourceTable::<T>::drop_handle,
                    (call, handle, kind),
                    Ok::<(), ResourceError>(()),
                )
            },
        exists|call: &mut ResourceTable<T>|
            {
                &&& *call == second
                &&& *final(call) == third
                &&& #[trigger] call_ensures(
                    ResourceTable::<T>::drop_handle,
                    (call, handle, again),
                    result,
                )
            },
    ensures
        result == Err::<(), ResourceError>(ResourceError::InvalidHandle),
        third.account() == second.account(),
        third@ == second@,
{
}

/// A removal hands out the value that the handle named and destroys nothing.
pub proof fn law_remove_returns_what_it_named<T>(
    before: ResourceTable<T>,
    handle: ResourceHandle,
    kind: ResourceType,
    result: Result<T, ResourceError>,
    after: ResourceTable<T>,
)
    requires
        before.wf(),
        exists|call: &mut ResourceTable<T>|
            {
                &&& *call == before
                &&& *final(call) == after
                &&& #[trigger] call_ensures(
                    ResourceTable::<T>::remove,
                    (call, handle, kind),
                    result,
                )
            },
    ensures
        after.wf(),
        after.account().taken == before.account().taken,
        after.account().destroyed == before.account().destroyed,
        result is Ok <==> before@.resources().contains_key(handle.raw())
            && before@.resources()[handle.raw()].kind == kind,
        match result {
            Ok(value) => {
                &&& value == before@.resources()[handle.raw()].value
                &&& after.account().returned == before.account().returned.push(value)
                &&& after@.resources() == before@.resources().remove(handle.raw())
            },
            Err(_) => {
                &&& after.account().returned == before.account().returned
                &&& after@.resources() == before@.resources()
            },
        },
{
}

/// A read after an insertion gives the inserted value under the returned handle
/// and its type, the wrong type under any other, and for every other handle what
/// it gave before.
pub proof fn law_read_after_insert<T>(
    before: ResourceTable<T>,
    kind: ResourceType,
    value: T,
    handle: ResourceHandle,
    after: ResourceTable<T>,
    read: ResourceHandle,
    read_kind: ResourceType,
    earlier: Result<&T, ResourceError>,
    later: Result<&T, ResourceError>,
)
    requires
        before.wf(),
        exists|call: &mut ResourceTable<T>|
            {
                &&& *call == before
                &&& *final(call) == after
                &&& #[trigger] call_ensures(
                    ResourceTable::<T>::insert,
                    (call, kind, value),
                    Ok::<ResourceHandle, ResourceError>(handle),
                )
            },
        call_ensures(ResourceTable::<T>::get, (&before, read, read_kind), earlier),
        call_ensures(ResourceTable::<T>::get, (&after, read, read_kind), later),
    ensures
        handle.raw() != 0,
        read == handle ==> earlier == Err::<&T, ResourceError>(ResourceError::InvalidHandle),
        read == handle && read_kind == kind ==> later == Ok::<&T, ResourceError>(&value),
        read == handle && read_kind != kind ==> later == Err::<&T, ResourceError>(
            ResourceError::WrongType,
        ),
        read != handle ==> later == earlier,
{
    ResourceHandle::lemma_raw_determines_handle(read, handle);
}

/// A read after a removal finds the removed handle invalid under every type, and
/// gives for every other handle what it gave before.
pub proof fn law_read_after_remove<T>(
    before: ResourceTable<T>,
    handle: ResourceHandle,
    kind: ResourceType,
    value: T,
    after: ResourceTable<T>,
    read: ResourceHandle,
    read_kind: ResourceType,
    earlier: Result<&T, ResourceError>,
    later: Result<&T, ResourceError>,
)
    requires
        before.wf(),
        exists|call: &mut ResourceTable<T>|
            {
                &&& *call == before
                &&& *final(call) == after
                &&& #[trigger] call_ensures(
                    ResourceTable::<T>::remove,
                    (call, handle, kind),
                    Ok::<T, ResourceError>(value),
                )
            },
        call_ensures(ResourceTable::<T>::get, (&before, read, read_kind), earlier),
        call_ensures(ResourceTable::<T>::get, (&after, read, read_kind), later),
    ensures
        read == handle && read_kind == kind ==> earlier == Ok::<&T, ResourceError>(&value),
        read == handle ==> later == Err::<&T, ResourceError>(ResourceError::InvalidHandle),
        read != handle ==> later == earlier,
{
    ResourceHandle::lemma_raw_determines_handle(read, handle);
}

/// The insertion that follows a removal reuses the slot and returns the removed
/// word plus the span, where that still fits in a word. It needs no allocator.
pub proof fn law_insert_after_remove_returns_the_next_word<T>(
    first: ResourceTable<T>,
    handle: ResourceHandle,
    kind: ResourceType,
    value: T,
    second: ResourceTable<T>,
    new_kind: ResourceType,
    new_value: T,
    result: Result<ResourceHandle, ResourceError>,
    third: ResourceTable<T>,
)
    requires
        first.wf(),
        handle.raw() + span(first@.max_live) <= u32::MAX,
        exists|call: &mut ResourceTable<T>|
            {
                &&& *call == first
                &&& *final(call) == second
                &&& #[trigger] call_ensures(
                    ResourceTable::<T>::remove,
                    (call, handle, kind),
                    Ok::<T, ResourceError>(value),
                )
            },
        exists|call: &mut ResourceTable<T>|
            {
                &&& *call == second
                &&& *final(call) == third
                &&& #[trigger] call_ensures(
                    ResourceTable::<T>::insert,
                    (call, new_kind, new_value),
                    result,
                )
            },
    ensures
        result is Ok,
        result->Ok_0.raw() == handle.raw() + span(first@.max_live),
        third@.slots.len() == first@.slots.len(),
        third@.free == first@.free,
        third.storage() == first.storage(),
{
    super::laws::lemma_removed_word_moves_on(first@, handle.raw(), new_kind, new_value);
}

/// A successful removal frees its slot where the word plus the span fits in a word, and
/// that sum is the slot's next word; else it retires the slot for good. No other
/// slot changes.
pub proof fn law_remove_frees_or_retires_the_slot<T>(
    before: ResourceTable<T>,
    handle: ResourceHandle,
    kind: ResourceType,
    result: Result<T, ResourceError>,
    after: ResourceTable<T>,
)
    requires
        before.wf(),
        result is Ok,
        exists|call: &mut ResourceTable<T>|
            {
                &&& *call == before
                &&& *final(call) == after
                &&& #[trigger] call_ensures(
                    ResourceTable::<T>::remove,
                    (call, handle, kind),
                    result,
                )
            },
    ensures
        ({
            let s = span(before@.max_live);
            let slot = handle.raw() as nat % s - 1;
            &&& 0 <= slot < before@.slots.len()
            &&& after@.slots.len() == before@.slots.len()
            &&& after@.slots[slot].resource is None
            &&& forall|j: int|
                0 <= j < before@.slots.len() && j != slot ==> #[trigger] after@.slots[j]
                    == before@.slots[j]
            &&& if handle.raw() + s <= u32::MAX {
                &&& after@.free == before@.free.push(slot)
                &&& after@.retired() == before@.retired()
                &&& after@.slots[slot].generation * s + slot + 1 == handle.raw() + s
            } else {
                &&& after@.free == before@.free
                &&& after@.retired() == before@.retired().insert(slot)
                &&& !before@.retired().contains(slot)
            }
        }),
{
    super::laws::lemma_removed_slot_is_freed_or_retired(before@, handle.raw());
}

/// A successful `drop_handle` frees its slot where the word plus the span fits in a word, and
/// that sum is the slot's next word; else it retires the slot for good. No other
/// slot changes.
pub proof fn law_drop_handle_frees_or_retires_the_slot<T>(
    before: ResourceTable<T>,
    handle: ResourceHandle,
    kind: ResourceType,
    result: Result<(), ResourceError>,
    after: ResourceTable<T>,
)
    requires
        before.wf(),
        result is Ok,
        exists|call: &mut ResourceTable<T>|
            {
                &&& *call == before
                &&& *final(call) == after
                &&& #[trigger] call_ensures(
                    ResourceTable::<T>::drop_handle,
                    (call, handle, kind),
                    result,
                )
            },
    ensures
        ({
            let s = span(before@.max_live);
            let slot = handle.raw() as nat % s - 1;
            &&& 0 <= slot < before@.slots.len()
            &&& after@.slots.len() == before@.slots.len()
            &&& after@.slots[slot].resource is None
            &&& forall|j: int|
                0 <= j < before@.slots.len() && j != slot ==> #[trigger] after@.slots[j]
                    == before@.slots[j]
            &&& if handle.raw() + s <= u32::MAX {
                &&& after@.free == before@.free.push(slot)
                &&& after@.retired() == before@.retired()
                &&& after@.slots[slot].generation * s + slot + 1 == handle.raw() + s
            } else {
                &&& after@.free == before@.free
                &&& after@.retired() == before@.retired().insert(slot)
                &&& !before@.retired().contains(slot)
            }
        }),
{
    super::laws::lemma_removed_slot_is_freed_or_retired(before@, handle.raw());
}

/// A successful insertion fills the slot that was freed last, in its generation,
/// or adds a slot in generation zero where none is free. No other slot changes
/// and none is retired.
pub proof fn law_insert_fills_one_slot<T>(
    before: ResourceTable<T>,
    kind: ResourceType,
    value: T,
    handle: ResourceHandle,
    after: ResourceTable<T>,
)
    requires
        before.wf(),
        exists|call: &mut ResourceTable<T>|
            {
                &&& *call == before
                &&& *final(call) == after
                &&& #[trigger] call_ensures(
                    ResourceTable::<T>::insert,
                    (call, kind, value),
                    Ok::<ResourceHandle, ResourceError>(handle),
                )
            },
    ensures
        ({
            let reused = before@.free.len() > 0;
            let slot = if reused {
                before@.free.last()
            } else {
                before@.slots.len() as int
            };
            let generation = if reused {
                before@.slots[slot].generation
            } else {
                0
            };
            &&& handle.raw() == generation * span(before@.max_live) + slot + 1
            &&& after@.slots.len() == before@.slots.len() + (if reused {
                0int
            } else {
                1
            })
            &&& after@.free == if reused {
                before@.free.drop_last()
            } else {
                before@.free
            }
            &&& after@.slots[slot].generation == generation
            &&& after@.slots[slot].resource == Some(Resource { kind, value })
            &&& forall|j: int|
                0 <= j < before@.slots.len() && j != slot ==> #[trigger] after@.slots[j]
                    == before@.slots[j]
            &&& after@.retired() == before@.retired()
        }),
{
    super::laws::lemma_inserted_slot_is_reused_or_new(before@, kind, value);
    assert(0 * span(before@.max_live) == 0) by (nonlinear_arith);
}

/// A table is full for an insertion exactly when its live resources and its
/// retired slots use up the cap, and the refused insertion changes nothing.
pub proof fn law_insert_is_full_iff_cap_is_used_up<T>(
    before: ResourceTable<T>,
    kind: ResourceType,
    value: T,
    result: Result<ResourceHandle, ResourceError>,
    after: ResourceTable<T>,
)
    requires
        before.wf(),
        exists|call: &mut ResourceTable<T>|
            {
                &&& *call == before
                &&& *final(call) == after
                &&& #[trigger] call_ensures(
                    ResourceTable::<T>::insert,
                    (call, kind, value),
                    result,
                )
            },
    ensures
        result == Err::<ResourceHandle, ResourceError>(ResourceError::Full)
            <==> before@.resources().len() + before@.retired().len() == before@.max_live,
        result is Err ==> after@ == before@,
        after@.max_live == before@.max_live,
{
    super::laws::lemma_full_iff_cap_is_used_up(before@);
}

/// After a write through `get_mut`, the handle reads what was written and every
/// other handle what it read before. The account and the slots stay.
pub proof fn law_read_after_write<T>(
    before: ResourceTable<T>,
    handle: ResourceHandle,
    kind: ResourceType,
    value: &mut T,
    after: ResourceTable<T>,
    read: ResourceHandle,
    read_kind: ResourceType,
    earlier: Result<&T, ResourceError>,
    later: Result<&T, ResourceError>,
)
    requires
        before.wf(),
        exists|call: &mut ResourceTable<T>|
            {
                &&& *call == before
                &&& *final(call) == after
                &&& #[trigger] call_ensures(
                    ResourceTable::<T>::get_mut,
                    (call, handle, kind),
                    Ok::<&mut T, ResourceError>(value),
                )
            },
        call_ensures(ResourceTable::<T>::get, (&before, read, read_kind), earlier),
        call_ensures(ResourceTable::<T>::get, (&after, read, read_kind), later),
    ensures
        read == handle && read_kind == kind ==> {
            &&& earlier == Ok::<&T, ResourceError>(&*old(value))
            &&& later == Ok::<&T, ResourceError>(&*final(value))
        },
        read == handle && read_kind != kind ==> later == Err::<&T, ResourceError>(
            ResourceError::WrongType,
        ),
        read != handle ==> later == earlier,
        after.account() == before.account(),
        after@.max_live == before@.max_live,
        after@.free == before@.free,
        after@.retired() == before@.retired(),
{
    ResourceHandle::lemma_raw_determines_handle(read, handle);
    super::laws::lemma_written_keeps_the_slots(before@, handle.raw(), *final(value));
}

} // verus!
