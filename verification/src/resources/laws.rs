//! Laws of the table, stated over its model.

use super::error::ResourceError;
use super::ids::ResourceType;
use super::model::{Operation, Resource, SlotModel, TableModel};
use vstd::prelude::*;

verus! {

/// The word of a slot number and a generation is not zero and gives both back.
pub proof fn lemma_handle_splits<T>(table: TableModel<T>, slot: int, generation: nat)
    requires
        table.wf(),
        0 <= slot < table.max_live,
        generation <= table.max_generation(),
    ensures
        table.handle(slot, generation) == generation * table.span() + slot + 1,
        table.handle(slot, generation) != 0,
        table.slot_of(table.handle(slot, generation)) == slot,
        table.generation_of(table.handle(slot, generation)) == generation,
{
    let number = (slot + 1) as nat;
    super::layout::lemma_span_bounds(table.max_live);
    super::layout::lemma_packed_fits(table.max_live, generation, number);
    super::layout::lemma_split_packed(table.max_live, generation, number);
    assert(generation * table.span() >= 0) by (nonlinear_arith);
}

/// A word is the handle of the slot and the generation that it splits into.
pub proof fn lemma_word_is_handle<T>(table: TableModel<T>, raw: u32)
    ensures
        table.handle(table.slot_of(raw), table.generation_of(raw)) == raw,
        table.generation_of(raw) <= table.max_generation(),
{
    super::layout::lemma_pack_split(table.max_live, raw);
}

/// Zero names nothing, whatever the table holds.
pub proof fn lemma_zero_is_invalid<T>(table: TableModel<T>, kind: ResourceType)
    ensures
        table.lookup(0, kind) == Err::<T, ResourceError>(ResourceError::InvalidHandle),
{
    super::layout::lemma_pack_split(table.max_live, 0);
    vstd::arithmetic::div_mod::lemma_small_mod(0, table.span());
}

/// There are as many live resources as occupied slots.
pub proof fn lemma_live_count<T>(table: TableModel<T>)
    requires
        table.wf(),
    ensures
        table.occupied().finite(),
        table.resources().dom().finite(),
        table.resources().len() == table.occupied().len(),
{
    let words = table.resources().dom();
    let occupied = table.occupied();
    vstd::set_lib::lemma_int_range(0, table.slots.len() as int);
    let word = |i: int| table.handle(i, table.slots[i].generation);
    assert(words =~= occupied.map(word)) by {
        assert forall|raw: u32| words.contains(raw) implies occupied.map(word).contains(raw) by {
            lemma_word_is_handle(table, raw);
            assert(occupied.contains(table.slot_of(raw)));
            assert(word(table.slot_of(raw)) == raw);
        }
        assert forall|raw: u32| occupied.map(word).contains(raw) implies words.contains(raw) by {
            let i = choose|i: int| occupied.contains(i) && word(i) == raw;
            lemma_handle_splits(table, i, table.slots[i].generation);
        }
    }
    assert forall|i: int, j: int|
        occupied.contains(i) && occupied.contains(j) && #[trigger] word(i) == #[trigger] word(
            j,
        ) implies i == j by {
        lemma_handle_splits(table, i, table.slots[i].generation);
        lemma_handle_splits(table, j, table.slots[j].generation);
    }
    vstd::set_lib::lemma_map_size(occupied, words, word);
}

/// Every slot holds a resource, waits to be reused or is retired, and no slot
/// does two of these. The slots are no more than the cap.
pub proof fn lemma_counts<T>(table: TableModel<T>)
    requires
        table.wf(),
    ensures
        table.resources().dom().finite(),
        table.retired().finite(),
        table.resources().len() + table.free.len() + table.retired().len() == table.slots.len(),
        table.slots.len() <= table.max_live <= u16::MAX,
{
    let all = vstd::set_lib::set_int_range(0, table.slots.len() as int);
    let occupied = table.occupied();
    let waiting = table.free.to_set();
    let retired = table.retired();
    vstd::set_lib::lemma_int_range(0, table.slots.len() as int);
    lemma_live_count(table);
    table.free.unique_seq_to_set();
    assert forall|i: int| waiting.contains(i) implies all.contains(i) && !occupied.contains(i) by {
        let k = choose|k: int| 0 <= k < table.free.len() && table.free[k] == i;
        assert(table.free[k] == i);
    }
    vstd::set_lib::lemma_set_disjoint_lens(occupied, waiting);
    vstd::set_lib::lemma_set_disjoint_lens(occupied.union(waiting), retired);
    assert(occupied.union(waiting).union(retired) =~= all) by {
        assert forall|i: int| all.contains(i) implies occupied.contains(i) || waiting.contains(i)
            || retired.contains(i) by {
            if table.slots[i].resource is None && !table.free.contains(i) {
                assert(table.is_retired(i));
            }
        }
    }
}

/// A table is full exactly when its live resources and its retired slots use up
/// the cap.
pub proof fn lemma_full_iff_cap_is_used_up<T>(table: TableModel<T>)
    requires
        table.wf(),
    ensures
        table.is_full() <==> table.resources().len() + table.retired().len() == table.max_live,
{
    lemma_counts(table);
}

/// Access fails only because the word names nothing or names a resource of
/// another type.
pub proof fn lemma_lookup_errors<T>(table: TableModel<T>, raw: u32, kind: ResourceType)
    ensures
        table.lookup(raw, kind) is Err ==> {
            ||| table.lookup(raw, kind)->Err_0 == ResourceError::InvalidHandle
            ||| table.lookup(raw, kind)->Err_0 == ResourceError::WrongType
        },
{
}

/// A word has the wrong type exactly when it is accepted under another type.
pub proof fn lemma_wrong_type_iff_other_type_accepted<T>(
    table: TableModel<T>,
    raw: u32,
    kind: ResourceType,
)
    ensures
        table.lookup(raw, kind) == Err::<T, ResourceError>(ResourceError::WrongType)
            <==> exists|other: ResourceType|
            other != kind && #[trigger] table.lookup(raw, other) is Ok,
{
    if table.lookup(raw, kind) == Err::<T, ResourceError>(ResourceError::WrongType) {
        assert(table.lookup(raw, table.resources()[raw].kind) is Ok);
    }
}

/// Whether a word is invalid does not depend on the type.
pub proof fn lemma_invalid_under_every_type<T>(
    table: TableModel<T>,
    raw: u32,
    kind: ResourceType,
    other: ResourceType,
)
    ensures
        table.lookup(raw, kind) == Err::<T, ResourceError>(ResourceError::InvalidHandle)
            <==> table.lookup(raw, other) == Err::<T, ResourceError>(
            ResourceError::InvalidHandle,
        ),
{
}

/// A slot is named by at most one accepted word, under one type.
pub proof fn lemma_accepted_words_name_distinct_slots<T>(
    table: TableModel<T>,
    a: u32,
    a_kind: ResourceType,
    b: u32,
    b_kind: ResourceType,
)
    requires
        table.wf(),
        table.lookup(a, a_kind) is Ok,
        table.lookup(b, b_kind) is Ok,
    ensures
        table.slot_of(a) == table.slot_of(b) <==> a == b,
        a == b ==> a_kind == b_kind,
{
    if table.slot_of(a) == table.slot_of(b) {
        lemma_same_place_same_word(table, a, b);
    }
}

/// There are as many accepted words as live resources.
pub proof fn lemma_accepted_count<T>(table: TableModel<T>)
    requires
        table.wf(),
    ensures
        table.accepted().finite(),
        table.accepted().len() == table.resources().len(),
{
    lemma_live_count(table);
    assert(table.accepted() =~= table.resources().dom()) by {
        assert forall|raw: u32| table.resources().contains_key(raw) implies table.accepted().contains(
            raw,
        ) by {
            assert(table.lookup(raw, table.resources()[raw].kind) is Ok);
        }
    }
}

/// An empty table is well formed and names nothing.
pub proof fn lemma_empty<T>(max_live: nat)
    requires
        0 < max_live <= u16::MAX,
    ensures
        TableModel::<T>::empty(max_live).wf(),
        TableModel::<T>::empty(max_live).resources() == Map::<u32, Resource<T>>::empty(),
{
    let table = TableModel::<T>::empty(max_live);
    assert(table.resources() =~= Map::<u32, Resource<T>>::empty());
}

/// The next handle of a table that is not full names a slot within the cap, in
/// a generation that fits.
proof fn lemma_next_in_range<T>(table: TableModel<T>)
    requires
        table.wf(),
        !table.is_full(),
    ensures
        0 <= table.next_slot() < table.max_live,
        table.next_generation() <= table.max_generation(),
{
    if !table.needs_slot() {
        assert(table.free[table.free.len() - 1] == table.free.last());
    }
}

/// Two words that point to the same slot in the same generation are equal.
proof fn lemma_same_place_same_word<T>(table: TableModel<T>, a: u32, b: u32)
    requires
        table.slot_of(a) == table.slot_of(b),
        table.generation_of(a) == table.generation_of(b),
    ensures
        a == b,
{
    lemma_word_is_handle(table, a);
    lemma_word_is_handle(table, b);
}

/// An insertion adds one resource under a word that named nothing and leaves
/// every other resource as it is.
pub proof fn lemma_inserted<T>(table: TableModel<T>, kind: ResourceType, value: T)
    requires
        table.wf(),
        !table.is_full(),
    ensures
        table.inserted(kind, value).wf(),
        !table.resources().contains_key(table.next_handle()),
        table.inserted(kind, value).resources() == table.resources().insert(
            table.next_handle(),
            Resource { kind, value },
        ),
{
    let after = table.inserted(kind, value);
    let raw = table.next_handle();
    let i = table.next_slot();
    lemma_next_in_range(table);
    lemma_handle_splits(table, i, table.next_generation());
    if !table.needs_slot() {
        assert(table.free[table.free.len() - 1] == i);
    }
    assert forall|j: int| #[trigger] after.is_retired(j) implies after.slots[j].generation
        == after.max_generation() by {
        if !table.needs_slot() {
            assert(j != i);
            if table.free.contains(j) {
                let k = choose|k: int| 0 <= k < table.free.len() && table.free[k] == j;
                assert(after.free[k] == j);
            }
        }
        assert(table.is_retired(j));
    }
    assert forall|k: int| 0 <= k < after.free.len() implies 0 <= #[trigger] after.free[k]
        < after.slots.len() && after.slots[after.free[k]].resource is None by {
        assert(after.free[k] == table.free[k]);
        assert(after.free[k] != i);
    }
    assert(after.wf());
    let expected = table.resources().insert(raw, Resource { kind, value });
    assert forall|r: u32| after.is_live(r) <==> #[trigger] expected.contains_key(r) by {
        if after.slot_of(r) == i && after.generation_of(r) == table.next_generation() {
            lemma_same_place_same_word(table, r, raw);
        }
    }
    assert(after.resources().dom() =~= expected.dom());
    assert forall|r: u32| #[trigger] expected.contains_key(r) implies after.resources()[r]
        == expected[r] by {
        if r != raw {
            assert(table.is_live(r));
            assert(table.slot_of(r) != i);
        }
    }
    assert(after.resources() =~= expected);
}

/// Taking out a resource removes its word and leaves every other resource as
/// it is.
pub proof fn lemma_removed<T>(table: TableModel<T>, raw: u32)
    requires
        table.wf(),
        table.resources().contains_key(raw),
    ensures
        table.removed(raw).wf(),
        table.removed(raw).resources() == table.resources().remove(raw),
{
    let after = table.removed(raw);
    let i = table.slot_of(raw);
    lemma_word_is_handle(table, raw);
    assert(!table.free.contains(i)) by {
        if table.free.contains(i) {
            let k = choose|k: int| 0 <= k < table.free.len() && table.free[k] == i;
            assert(table.free[k] == i);
        }
    }
    assert forall|k: int| 0 <= k < after.free.len() implies 0 <= #[trigger] after.free[k]
        < after.slots.len() && after.slots[after.free[k]].resource is None by {
        if k < table.free.len() {
            assert(after.free[k] == table.free[k]);
        }
    }
    assert forall|j: int| #[trigger] after.is_retired(j) implies after.slots[j].generation
        == after.max_generation() by {
        if j == i {
            if table.slots[i].generation < table.max_generation() {
                assert(after.free[table.free.len() as int] == i);
            }
        } else {
            if table.free.contains(j) {
                let k = choose|k: int| 0 <= k < table.free.len() && table.free[k] == j;
                assert(after.free[k] == j);
            }
            assert(table.is_retired(j));
        }
    }
    assert(after.wf());
    let expected = table.resources().remove(raw);
    assert forall|r: u32| after.is_live(r) <==> #[trigger] expected.contains_key(r) by {
        if table.slot_of(r) == i && table.generation_of(r) == table.generation_of(raw) {
            lemma_same_place_same_word(table, r, raw);
        }
    }
    assert(after.resources() =~= expected);
}

/// Where a removed word plus the span still fits in a word, it is the next
/// insertion's word, and that insertion leaves the slots to reuse as they were
/// before the removal.
pub proof fn lemma_removed_word_moves_on<T>(
    table: TableModel<T>,
    raw: u32,
    kind: ResourceType,
    value: T,
)
    requires
        table.wf(),
        table.resources().contains_key(raw),
        raw + super::layout::span(table.max_live) <= u32::MAX,
    ensures
        !table.removed(raw).is_full(),
        !table.removed(raw).needs_slot(),
        table.removed(raw).next_handle() == raw + super::layout::span(table.max_live),
        table.removed(raw).inserted(kind, value).free == table.free,
{
    let after = table.removed(raw);
    let generation = table.generation_of(raw);
    lemma_generation_left_iff_word_fits(table, raw);
    lemma_word_is_handle(table, raw);
    lemma_removed(table, raw);
    lemma_counts(after);
    let i = table.slot_of(raw);
    assert(after.free.last() == i);
    lemma_handle_splits(after, i, generation + 1);
    lemma_handle_splits(table, i, generation);
    assert((generation + 1) * table.span() == generation * table.span() + table.span())
        by (nonlinear_arith);
    assert(after.inserted(kind, value).free =~= table.free);
}

/// A removal frees its slot where the removed word plus the span fits in a word,
/// and the slot's next word is that sum; else it retires the slot. No other slot
/// changes.
pub proof fn lemma_removed_slot_is_freed_or_retired<T>(table: TableModel<T>, raw: u32)
    requires
        table.wf(),
        table.resources().contains_key(raw),
    ensures
        ({
            let after = table.removed(raw);
            let s = super::layout::span(table.max_live);
            let slot = raw as nat % s - 1;
            &&& 0 <= slot < table.slots.len()
            &&& after.slots.len() == table.slots.len()
            &&& after.slots[slot].resource is None
            &&& forall|j: int|
                0 <= j < table.slots.len() && j != slot ==> #[trigger] after.slots[j]
                    == table.slots[j]
            &&& if raw + s <= u32::MAX {
                &&& after.free == table.free.push(slot)
                &&& after.retired() == table.retired()
                &&& after.slots[slot].generation * s + slot + 1 == raw + s
            } else {
                &&& after.free == table.free
                &&& after.retired() == table.retired().insert(slot)
                &&& !table.retired().contains(slot)
            }
        }),
{
    let after = table.removed(raw);
    let slot = table.slot_of(raw);
    let s = table.span();
    let generation = table.generation_of(raw);
    lemma_generation_left_iff_word_fits(table, raw);
    lemma_word_is_handle(table, raw);
    lemma_handle_splits(table, slot, generation);
    assert((generation + 1) * s == generation * s + s) by (nonlinear_arith);
    assert(!table.free.contains(slot)) by {
        if table.free.contains(slot) {
            let k = choose|k: int| 0 <= k < table.free.len() && table.free[k] == slot;
            assert(table.free[k] == slot);
        }
    }
    assert forall|j: int|
        after.free.contains(j) <==> table.free.contains(j) || (raw + s <= u32::MAX && j
            == slot) by {
        if raw + s <= u32::MAX {
            assert(after.free[table.free.len() as int] == slot);
            if table.free.contains(j) {
                let k = choose|k: int| 0 <= k < table.free.len() && table.free[k] == j;
                assert(after.free[k] == j);
            }
            if after.free.contains(j) && j != slot {
                let k = choose|k: int| 0 <= k < after.free.len() && after.free[k] == j;
                assert(table.free[k] == j);
            }
        }
    }
    if raw + s <= u32::MAX {
        assert(after.retired() =~= table.retired());
    } else {
        assert(after.retired() =~= table.retired().insert(slot));
    }
}

/// An insertion fills the slot on top of those to reuse, in its generation, or
/// adds a slot in generation zero. No other slot changes and none is retired.
pub proof fn lemma_inserted_slot_is_reused_or_new<T>(
    table: TableModel<T>,
    kind: ResourceType,
    value: T,
)
    requires
        table.wf(),
        !table.is_full(),
    ensures
        ({
            let after = table.inserted(kind, value);
            let slot = if table.free.len() == 0 {
                table.slots.len() as int
            } else {
                table.free.last()
            };
            &&& after.free == if table.free.len() == 0 {
                table.free
            } else {
                table.free.drop_last()
            }
            &&& after.slots.len() == if table.free.len() == 0 {
                table.slots.len() + 1
            } else {
                table.slots.len()
            }
            &&& after.slots[slot] == (SlotModel {
                generation: if table.free.len() == 0 {
                    0
                } else {
                    table.slots[slot].generation
                },
                resource: Some(Resource { kind, value }),
            })
            &&& forall|j: int|
                0 <= j < table.slots.len() && j != slot ==> #[trigger] after.slots[j]
                    == table.slots[j]
            &&& after.retired() == table.retired()
        }),
{
    let after = table.inserted(kind, value);
    lemma_next_in_range(table);
    if !table.needs_slot() {
        let last = table.free.len() - 1;
        assert(table.free[last] == table.next_slot());
        assert forall|j: int|
            after.free.contains(j) <==> table.free.contains(j) && j != table.next_slot() by {
            if after.free.contains(j) {
                let k = choose|k: int| 0 <= k < after.free.len() && after.free[k] == j;
                assert(table.free[k] == j);
            }
            if table.free.contains(j) && j != table.next_slot() {
                let k = choose|k: int| 0 <= k < table.free.len() && table.free[k] == j;
                assert(after.free[k] == j);
            }
        }
    }
    assert(after.retired() =~= table.retired());
}

/// Replacing a value leaves every slot's generation and place as they are.
pub proof fn lemma_written_keeps_the_slots<T>(table: TableModel<T>, raw: u32, value: T)
    requires
        table.wf(),
        table.resources().contains_key(raw),
    ensures
        table.written(raw, value).slots.len() == table.slots.len(),
        table.written(raw, value).free == table.free,
        table.written(raw, value).retired() == table.retired(),
        forall|j: int|
            0 <= j < table.slots.len() ==> (#[trigger] table.written(
                raw,
                value,
            ).slots[j]).generation == table.slots[j].generation,
{
    assert(table.written(raw, value).retired() =~= table.retired());
}

/// A word has a generation left exactly when the word plus the span fits.
proof fn lemma_generation_left_iff_word_fits<T>(table: TableModel<T>, raw: u32)
    requires
        table.wf(),
        table.has_slot(raw),
    ensures
        table.generation_of(raw) < table.max_generation() <==> raw + table.span() <= u32::MAX,
{
    let generation = table.generation_of(raw);
    let number = raw as nat % table.span();
    let s = table.span();
    super::layout::lemma_pack_split(table.max_live, raw);
    assert((generation + 1) * s == generation * s + s) by (nonlinear_arith);
    if generation < table.max_generation() {
        super::layout::lemma_packed_fits(table.max_live, generation + 1, number);
    }
    if raw + s <= u32::MAX {
        super::layout::lemma_split_packed(table.max_live, generation + 1, number);
        vstd::arithmetic::div_mod::lemma_div_is_ordered(
            raw + s as int,
            u32::MAX as int,
            s as int,
        );
    }
}

/// Replacing a value changes what its word names, keeps the type, and leaves
/// every other resource as it is.
pub proof fn lemma_written<T>(table: TableModel<T>, raw: u32, value: T)
    requires
        table.wf(),
        table.resources().contains_key(raw),
    ensures
        table.written(raw, value).wf(),
        table.written(raw, value).resources() == table.resources().insert(
            raw,
            Resource { kind: table.resources()[raw].kind, value },
        ),
{
    let after = table.written(raw, value);
    let i = table.slot_of(raw);
    assert forall|k: int| 0 <= k < after.free.len() implies 0 <= #[trigger] after.free[k]
        < after.slots.len() && after.slots[after.free[k]].resource is None by {
        assert(after.free[k] == table.free[k]);
    }
    assert forall|j: int| #[trigger] after.is_retired(j) implies after.slots[j].generation
        == after.max_generation() by {
        assert(table.is_retired(j));
    }
    assert(after.wf());
    let expected = table.resources().insert(
        raw,
        Resource { kind: table.resources()[raw].kind, value },
    );
    assert forall|r: u32| after.is_live(r) <==> #[trigger] expected.contains_key(r) by {
    }
    assert forall|r: u32| #[trigger] expected.contains_key(r) implies after.resources()[r]
        == expected[r] by {
        if table.slot_of(r) == i {
            lemma_same_place_same_word(table, r, raw);
        }
    }
    assert(after.resources() =~= expected);
}

/// Every operation keeps the table well formed and its cap as it is.
pub proof fn lemma_after_keeps_wf<T>(table: TableModel<T>, operation: Operation<T>)
    requires
        table.wf(),
    ensures
        table.after(operation).wf(),
        table.after(operation).max_live == table.max_live,
{
    match operation {
        Operation::Insert { kind, value, .. } => {
            if !table.is_full() {
                lemma_inserted(table, kind, value);
            }
        },
        Operation::Write { raw, kind, value } => {
            if table.lookup(raw, kind) is Ok {
                lemma_written(table, raw, value);
            }
        },
        Operation::Remove { raw, kind } => {
            if table.lookup(raw, kind) is Ok {
                lemma_removed(table, raw);
            }
        },
    }
}

/// Every sequence of operations keeps the table well formed and its cap as it
/// is.
pub proof fn lemma_after_all_keeps_wf<T>(table: TableModel<T>, operations: Seq<Operation<T>>)
    requires
        table.wf(),
    ensures
        table.after_all(operations).wf(),
        table.after_all(operations).max_live == table.max_live,
    decreases operations.len(),
{
    if operations.len() > 0 {
        lemma_after_all_keeps_wf(table, operations.drop_last());
        lemma_after_keeps_wf(table.after_all(operations.drop_last()), operations.last());
    }
}

/// An operation issues the word that it returns and no other: the words issued
/// after it are those issued before it and that one.
pub proof fn lemma_issued_after<T>(table: TableModel<T>, operation: Operation<T>, raw: u32)
    requires
        table.wf(),
    ensures
        table.after(operation).is_issued(raw) <==> table.is_issued(raw) || table.issues(
            operation,
            raw,
        ),
{
    lemma_word_is_handle(table, raw);
    let after = table.after(operation);
    let i = table.slot_of(raw);
    match operation {
        Operation::Insert { kind, value, reserved } => {
            if !table.is_full() && (table.needs_slot() ==> reserved) {
                lemma_next_in_range(table);
                lemma_handle_splits(table, table.next_slot(), table.next_generation());
                if !table.needs_slot() {
                    let last = table.free.len() - 1;
                    assert(table.free[last] == table.next_slot());
                    assert(after.free.contains(i) <==> table.free.contains(i) && i
                        != table.next_slot()) by {
                        if after.free.contains(i) {
                            let k = choose|k: int| 0 <= k < after.free.len() && after.free[k] == i;
                            assert(table.free[k] == i);
                        }
                        if table.free.contains(i) && i != table.next_slot() {
                            let k = choose|k: int| 0 <= k < table.free.len() && table.free[k] == i;
                            assert(after.free[k] == i);
                        }
                    }
                }
            }
        },
        Operation::Write { .. } => {},
        Operation::Remove { raw: removed, kind } => {
            if table.lookup(removed, kind) is Ok {
                let j = table.slot_of(removed);
                if table.slots[j].generation < table.max_generation() {
                    assert(after.free[table.free.len() as int] == j);
                    assert(after.free.contains(i) <==> table.free.contains(i) || i == j) by {
                        if after.free.contains(i) && i != j {
                            let k = choose|k: int| 0 <= k < after.free.len() && after.free[k] == i;
                            assert(table.free[k] == i);
                        }
                        if table.free.contains(i) {
                            let k = choose|k: int| 0 <= k < table.free.len() && table.free[k] == i;
                            assert(after.free[k] == i);
                        }
                    }
                    assert(!table.free.contains(j)) by {
                        if table.free.contains(j) {
                            let k = choose|k: int| 0 <= k < table.free.len() && table.free[k] == j;
                            assert(table.free[k] == j);
                        }
                    }
                }
            }
        },
    }
}

/// The words issued to the users of a table are those that its insertions
/// returned.
pub proof fn lemma_issued_words_were_returned<T>(
    max_live: nat,
    operations: Seq<Operation<T>>,
    raw: u32,
)
    requires
        0 < max_live <= u16::MAX,
    ensures
        TableModel::<T>::empty(max_live).after_all(operations).is_issued(raw) <==> exists|k: int|
            0 <= k < operations.len() && (#[trigger] TableModel::<T>::empty(max_live).after_all(
                operations.take(k),
            )).issues(operations[k], raw),
    decreases operations.len(),
{
    let start = TableModel::<T>::empty(max_live);
    lemma_empty::<T>(max_live);
    if operations.len() > 0 {
        let earlier = operations.drop_last();
        let n = operations.len() - 1;
        lemma_issued_words_were_returned(max_live, earlier, raw);
        lemma_after_all_keeps_wf(start, earlier);
        lemma_issued_after(start.after_all(earlier), operations.last(), raw);
        assert(operations.take(n) =~= earlier);
        if start.after_all(earlier).is_issued(raw) {
            let k = choose|k: int|
                0 <= k < earlier.len() && (#[trigger] start.after_all(earlier.take(k))).issues(
                    earlier[k],
                    raw,
                );
            assert(earlier.take(k) =~= operations.take(k));
            assert(start.after_all(operations.take(k)).issues(operations[k], raw));
        }
        if exists|k: int|
            0 <= k < operations.len() && (#[trigger] start.after_all(operations.take(k))).issues(
                operations[k],
                raw,
            ) {
            let k = choose|k: int|
                0 <= k < operations.len() && (#[trigger] start.after_all(
                    operations.take(k),
                )).issues(operations[k], raw);
            if k < n {
                assert(earlier.take(k) =~= operations.take(k));
                assert(start.after_all(earlier.take(k)).issues(earlier[k], raw));
            }
        }
    }
}

/// A word that was never issued names nothing: only issued words are live.
pub proof fn lemma_live_word_is_issued<T>(table: TableModel<T>, raw: u32)
    requires
        table.wf(),
        table.resources().contains_key(raw),
    ensures
        table.is_issued(raw),
{
    let i = table.slot_of(raw);
    if table.free.contains(i) {
        let k = choose|k: int| 0 <= k < table.free.len() && table.free[k] == i;
        assert(table.free[k] == i);
    }
}

/// The word that an insertion returns was not issued before.
pub proof fn lemma_next_handle_is_new<T>(table: TableModel<T>)
    requires
        table.wf(),
        !table.is_full(),
    ensures
        !table.is_issued(table.next_handle()),
{
    lemma_next_in_range(table);
    lemma_handle_splits(table, table.next_slot(), table.next_generation());
    if !table.needs_slot() {
        assert(table.free[table.free.len() - 1] == table.next_slot());
    }
}

/// A word once issued stays issued.
pub proof fn lemma_issued_stays_issued<T>(
    table: TableModel<T>,
    operations: Seq<Operation<T>>,
    raw: u32,
)
    requires
        table.wf(),
        table.is_issued(raw),
    ensures
        table.after_all(operations).is_issued(raw),
    decreases operations.len(),
{
    if operations.len() > 0 {
        let earlier = operations.drop_last();
        lemma_issued_stays_issued(table, earlier, raw);
        lemma_after_all_keeps_wf(table, earlier);
        lemma_issued_after(table.after_all(earlier), operations.last(), raw);
    }
}

/// No two insertions into a table return the same word, whatever is inserted,
/// written and removed in between.
pub proof fn lemma_handle_is_never_reissued<T>(
    table: TableModel<T>,
    kind: ResourceType,
    value: T,
    operations: Seq<Operation<T>>,
)
    requires
        table.wf(),
        !table.is_full(),
        !table.inserted(kind, value).after_all(operations).is_full(),
    ensures
        table.inserted(kind, value).after_all(operations).next_handle() != table.next_handle(),
{
    let after = table.inserted(kind, value);
    lemma_inserted(table, kind, value);
    assert(after.resources().contains_key(table.next_handle()));
    lemma_live_word_is_issued(after, table.next_handle());
    lemma_issued_stays_issued(after, operations, table.next_handle());
    lemma_after_all_keeps_wf(after, operations);
    lemma_next_handle_is_new(after.after_all(operations));
}

/// An operation does not revive a stale word.
proof fn lemma_stale_after<T>(table: TableModel<T>, operation: Operation<T>, raw: u32)
    requires
        table.wf(),
        table.is_stale(raw),
    ensures
        table.after(operation).is_stale(raw),
{
    lemma_issued_after(table, operation, raw);
    assert(!table.resources().contains_key(raw));
    match operation {
        Operation::Insert { kind, value, .. } => {
            if !table.is_full() {
                lemma_inserted(table, kind, value);
                lemma_next_handle_is_new(table);
                assert(!table.inserted(kind, value).resources().contains_key(raw));
            }
        },
        Operation::Write { raw: written, kind, value } => {
            if table.lookup(written, kind) is Ok {
                lemma_written(table, written, value);
                assert(!table.written(written, value).resources().contains_key(raw));
            }
        },
        Operation::Remove { raw: removed, kind } => {
            if table.lookup(removed, kind) is Ok {
                lemma_removed(table, removed);
                assert(!table.removed(removed).resources().contains_key(raw));
            }
        },
    }
}

/// A stale word stays stale: it never names a resource again, whatever is done
/// to the table.
pub proof fn lemma_stale_stays_invalid<T>(
    table: TableModel<T>,
    operations: Seq<Operation<T>>,
    raw: u32,
    kind: ResourceType,
)
    requires
        table.wf(),
        table.is_stale(raw),
    ensures
        table.after_all(operations).is_stale(raw),
        table.after_all(operations).lookup(raw, kind) == Err::<T, ResourceError>(
            ResourceError::InvalidHandle,
        ),
    decreases operations.len(),
{
    if operations.len() > 0 {
        let earlier = operations.drop_last();
        lemma_stale_stays_invalid(table, earlier, raw, kind);
        lemma_after_all_keeps_wf(table, earlier);
        lemma_stale_after(table.after_all(earlier), operations.last(), raw);
    }
}

/// Once its resource is taken out, a word is invalid for good: a resource
/// leaves the table at most once under its word, and the word never names
/// another.
pub proof fn lemma_removed_stays_invalid<T>(
    table: TableModel<T>,
    raw: u32,
    operations: Seq<Operation<T>>,
    kind: ResourceType,
)
    requires
        table.wf(),
        table.resources().contains_key(raw),
    ensures
        table.removed(raw).after_all(operations).lookup(raw, kind) == Err::<T, ResourceError>(
            ResourceError::InvalidHandle,
        ),
{
    let after = table.removed(raw);
    let own = table.resources()[raw].kind;
    lemma_removed(table, raw);
    lemma_live_word_is_issued(table, raw);
    assert(table.after(Operation::Remove { raw, kind: own }) == after);
    lemma_issued_after(table, Operation::Remove { raw, kind: own }, raw);
    assert(!after.resources().contains_key(raw));
    lemma_stale_stays_invalid(after, operations, raw, kind);
}

/// A resource stays under its word, with its type and value, until an operation
/// on that word succeeds.
pub proof fn lemma_untouched_resource_stays<T>(
    table: TableModel<T>,
    operations: Seq<Operation<T>>,
    raw: u32,
)
    requires
        table.wf(),
        table.resources().contains_key(raw),
        forall|k: int|
            0 <= k < operations.len() ==> !(#[trigger] table.after_all(
                operations.take(k),
            )).acts_on(operations[k], raw),
    ensures
        table.after_all(operations).resources().contains_key(raw),
        table.after_all(operations).resources()[raw] == table.resources()[raw],
    decreases operations.len(),
{
    if operations.len() > 0 {
        let earlier = operations.drop_last();
        let before = table.after_all(earlier);
        let n = operations.len() - 1;
        assert forall|k: int| 0 <= k < earlier.len() implies !(#[trigger] table.after_all(
            earlier.take(k),
        )).acts_on(earlier[k], raw) by {
            assert(earlier.take(k) =~= operations.take(k));
            assert(!table.after_all(operations.take(k)).acts_on(operations[k], raw));
        }
        lemma_untouched_resource_stays(table, earlier, raw);
        lemma_after_all_keeps_wf(table, earlier);
        assert(operations.take(n) =~= earlier);
        assert(!table.after_all(operations.take(n)).acts_on(operations[n], raw));
        match operations.last() {
            Operation::Insert { kind, value, .. } => {
                if !before.is_full() {
                    lemma_inserted(before, kind, value);
                }
            },
            Operation::Write { raw: written, kind, value } => {
                if before.lookup(written, kind) is Ok {
                    lemma_written(before, written, value);
                }
            },
            Operation::Remove { raw: removed, kind } => {
                if before.lookup(removed, kind) is Ok {
                    lemma_removed(before, removed);
                }
            },
        }
    }
}

/// What was inserted is read back under the returned word until an operation on
/// that word succeeds.
pub proof fn lemma_inserted_is_read_back<T>(
    table: TableModel<T>,
    kind: ResourceType,
    value: T,
    operations: Seq<Operation<T>>,
)
    requires
        table.wf(),
        !table.is_full(),
        forall|k: int|
            0 <= k < operations.len() ==> !(#[trigger] table.inserted(kind, value).after_all(
                operations.take(k),
            )).acts_on(operations[k], table.next_handle()),
    ensures
        table.inserted(kind, value).after_all(operations).lookup(table.next_handle(), kind) == Ok::<
            T,
            ResourceError,
        >(value),
{
    lemma_inserted(table, kind, value);
    lemma_untouched_resource_stays(table.inserted(kind, value), operations, table.next_handle());
}

/// What was written is read back under the same word until a later operation on
/// that word succeeds.
pub proof fn lemma_written_is_read_back<T>(
    table: TableModel<T>,
    raw: u32,
    kind: ResourceType,
    value: T,
    operations: Seq<Operation<T>>,
)
    requires
        table.wf(),
        table.lookup(raw, kind) is Ok,
        forall|k: int|
            0 <= k < operations.len() ==> !(#[trigger] table.written(raw, value).after_all(
                operations.take(k),
            )).acts_on(operations[k], raw),
    ensures
        table.written(raw, value).after_all(operations).lookup(raw, kind) == Ok::<
            T,
            ResourceError,
        >(value),
{
    lemma_written(table, raw, value);
    lemma_untouched_resource_stays(table.written(raw, value), operations, raw);
}

/// An operation adds one to the number of live resources if it inserts, takes
/// one off if it removes, and else leaves the number as it is.
proof fn lemma_length_after<T>(table: TableModel<T>, operation: Operation<T>)
    requires
        table.wf(),
    ensures
        table.after(operation).resources().len() == table.resources().len() + (if table.inserts(
            operation,
        ) {
            1int
        } else {
            0
        }) - (if table.removes(operation) {
            1int
        } else {
            0
        }),
{
    lemma_counts(table);
    match operation {
        Operation::Insert { kind, value, .. } => {
            if !table.is_full() {
                lemma_inserted(table, kind, value);
            }
        },
        Operation::Write { raw, kind, value } => {
            if table.lookup(raw, kind) is Ok {
                lemma_written(table, raw, value);
                assert(table.written(raw, value).resources().dom() =~= table.resources().dom());
            }
        },
        Operation::Remove { raw, kind } => {
            if table.lookup(raw, kind) is Ok {
                lemma_removed(table, raw);
            }
        },
    }
}

/// The number of live resources grows by the successful insertions and falls by
/// the successful removals.
pub proof fn lemma_length_over_history<T>(table: TableModel<T>, operations: Seq<Operation<T>>)
    requires
        table.wf(),
    ensures
        table.after_all(operations).resources().len() == table.resources().len()
            + table.insertions(operations) - table.removals(operations),
    decreases operations.len(),
{
    if operations.len() > 0 {
        let earlier = operations.drop_last();
        lemma_length_over_history(table, earlier);
        lemma_after_all_keeps_wf(table, earlier);
        lemma_length_after(table.after_all(earlier), operations.last());
    }
}

/// The number of live resources of a table is the number of successful
/// insertions into it less the number of successful removals.
pub proof fn lemma_length_is_insertions_less_removals<T>(
    max_live: nat,
    operations: Seq<Operation<T>>,
)
    requires
        0 < max_live <= u16::MAX,
    ensures
        TableModel::<T>::empty(max_live).after_all(operations).resources().len()
            == TableModel::<T>::empty(max_live).insertions(operations) - TableModel::<T>::empty(
            max_live,
        ).removals(operations),
{
    lemma_empty::<T>(max_live);
    lemma_length_over_history(TableModel::<T>::empty(max_live), operations);
    assert(TableModel::<T>::empty(max_live).resources().dom() =~= Set::<u32>::empty());
}

/// The slots that wait to be reused after an operation are the one that it
/// vacates and those that waited before it, less the one that it fills.
pub proof fn lemma_waiting_after<T>(table: TableModel<T>, operation: Operation<T>, slot: int)
    requires
        table.wf(),
    ensures
        table.after(operation).free.contains(slot) <==> {
            ||| table.vacates(operation, slot)
            ||| table.free.contains(slot) && !table.fills(operation, slot)
        },
{
    let after = table.after(operation);
    match operation {
        Operation::Insert { .. } => {
            if table.inserts(operation) {
                lemma_next_in_range(table);
                lemma_handle_splits(table, table.next_slot(), table.next_generation());
                if table.needs_slot() {
                    assert(!table.free.contains(slot));
                } else {
                    let last = table.free.len() - 1;
                    assert(table.free[last] == table.next_slot());
                    if after.free.contains(slot) {
                        let k = choose|k: int| 0 <= k < after.free.len() && after.free[k] == slot;
                        assert(table.free[k] == slot);
                    }
                    if table.free.contains(slot) && slot != table.next_slot() {
                        let k = choose|k: int| 0 <= k < table.free.len() && table.free[k] == slot;
                        assert(after.free[k] == slot);
                    }
                }
            }
        },
        Operation::Write { .. } => {},
        Operation::Remove { raw, .. } => {
            if table.removes(operation) && table.generation_of(raw) < table.max_generation() {
                let i = table.slot_of(raw);
                assert(after.free[table.free.len() as int] == i);
                if after.free.contains(slot) && slot != i {
                    let k = choose|k: int| 0 <= k < after.free.len() && after.free[k] == slot;
                    assert(table.free[k] == slot);
                }
                if table.free.contains(slot) {
                    let k = choose|k: int| 0 <= k < table.free.len() && table.free[k] == slot;
                    assert(after.free[k] == slot);
                }
            }
        },
    }
}

/// The slots of a table that wait to be reused are those that were vacated
/// before their last generation and not filled since.
pub proof fn lemma_waiting_iff_vacated_and_not_filled<T>(
    max_live: nat,
    operations: Seq<Operation<T>>,
    slot: int,
)
    requires
        0 < max_live <= u16::MAX,
    ensures
        TableModel::<T>::empty(max_live).after_all(operations).free.contains(slot)
            <==> exists|k: int| #[trigger]
            TableModel::<T>::empty(max_live).vacated_at(operations, k, slot),
    decreases operations.len(),
{
    let start = TableModel::<T>::empty(max_live);
    lemma_empty::<T>(max_live);
    if operations.len() > 0 {
        let earlier = operations.drop_last();
        let n = operations.len() - 1;
        let before = start.after_all(earlier);
        lemma_waiting_iff_vacated_and_not_filled(max_live, earlier, slot);
        lemma_after_all_keeps_wf(start, earlier);
        lemma_waiting_after(before, operations.last(), slot);
        assert(operations.take(n) =~= earlier);
        if before.vacates(operations.last(), slot) {
            assert(start.vacated_at(operations, n, slot));
        }
        if before.free.contains(slot) && !before.fills(operations.last(), slot) {
            let k = choose|k: int| #[trigger] start.vacated_at(earlier, k, slot);
            assert(earlier.take(k) =~= operations.take(k));
            assert forall|j: int| k < j < operations.len() implies !(#[trigger] start.after_all(
                operations.take(j),
            )).fills(operations[j], slot) by {
                if j < n {
                    assert(earlier.take(j) =~= operations.take(j));
                    assert(!start.after_all(earlier.take(j)).fills(earlier[j], slot));
                }
            }
            assert(start.vacated_at(operations, k, slot));
        }
        if exists|k: int| #[trigger] start.vacated_at(operations, k, slot) {
            let k = choose|k: int| #[trigger] start.vacated_at(operations, k, slot);
            if k < n {
                assert(!start.after_all(operations.take(n)).fills(operations[n], slot));
                assert(earlier.take(k) =~= operations.take(k));
                assert forall|j: int| k < j < earlier.len() implies !(#[trigger] start.after_all(
                    earlier.take(j),
                )).fills(earlier[j], slot) by {
                    assert(earlier.take(j) =~= operations.take(j));
                    assert(!start.after_all(operations.take(j)).fills(operations[j], slot));
                }
                assert(start.vacated_at(earlier, k, slot));
            }
        }
    }
}

/// While a slot waits to be reused, every insertion succeeds, whatever the
/// allocator grants, and fills a waiting slot.
pub proof fn lemma_waiting_slot_is_reused<T>(
    table: TableModel<T>,
    slot: int,
    kind: ResourceType,
    value: T,
    reserved: bool,
)
    requires
        table.wf(),
        table.free.contains(slot),
    ensures
        !table.is_full(),
        !table.needs_slot(),
        table.inserts(Operation::Insert { kind, value, reserved }),
        table.free.contains(table.slot_of(table.next_handle())),
{
    lemma_counts(table);
    lemma_next_in_range(table);
    lemma_handle_splits(table, table.next_slot(), table.next_generation());
    assert(table.free[table.free.len() - 1] == table.next_slot());
}

/// Once a slot was vacated before its last generation and until it is filled,
/// every insertion succeeds, whatever the allocator grants, and returns a word
/// with the number of a slot that was so vacated and not filled since.
pub proof fn lemma_insertion_reuses_a_vacated_slot<T>(
    max_live: nat,
    operations: Seq<Operation<T>>,
    k: int,
    slot: int,
    kind: ResourceType,
    value: T,
    reserved: bool,
)
    requires
        0 < max_live <= u16::MAX,
        TableModel::<T>::empty(max_live).vacated_at(operations, k, slot),
    ensures
        ({
            let start = TableModel::<T>::empty(max_live);
            let table = start.after_all(operations);
            &&& !table.is_full()
            &&& !table.needs_slot()
            &&& table.inserts(Operation::Insert { kind, value, reserved })
            &&& exists|j: int| #[trigger]
                start.vacated_at(operations, j, table.slot_of(table.next_handle()))
        }),
{
    let start = TableModel::<T>::empty(max_live);
    let table = start.after_all(operations);
    lemma_empty::<T>(max_live);
    lemma_after_all_keeps_wf(start, operations);
    lemma_waiting_iff_vacated_and_not_filled(max_live, operations, slot);
    lemma_waiting_slot_is_reused(table, slot, kind, value, reserved);
    lemma_waiting_iff_vacated_and_not_filled(
        max_live,
        operations,
        table.slot_of(table.next_handle()),
    );
}

/// Slots are never given up and their generations never fall.
pub proof fn lemma_generations_never_fall<T>(
    table: TableModel<T>,
    operations: Seq<Operation<T>>,
    slot: int,
)
    requires
        table.wf(),
        0 <= slot < table.slots.len(),
    ensures
        slot < table.after_all(operations).slots.len(),
        table.slots[slot].generation <= table.after_all(operations).slots[slot].generation,
    decreases operations.len(),
{
    if operations.len() > 0 {
        let earlier = operations.drop_last();
        let before = table.after_all(earlier);
        lemma_generations_never_fall(table, earlier, slot);
        lemma_after_all_keeps_wf(table, earlier);
        if !before.needs_slot() {
            assert(before.free[before.free.len() - 1] == before.free.last());
        }
    }
}

/// A retired slot is in its last generation and is never used again.
pub proof fn lemma_retired_slot_stays_retired<T>(
    table: TableModel<T>,
    operations: Seq<Operation<T>>,
    slot: int,
)
    requires
        table.wf(),
        table.is_retired(slot),
    ensures
        table.slots[slot].generation == table.max_generation(),
        table.after_all(operations).is_retired(slot),
        table.after_all(operations).slots[slot] == table.slots[slot],
    decreases operations.len(),
{
    if operations.len() > 0 {
        let earlier = operations.drop_last();
        let before = table.after_all(earlier);
        let after = table.after_all(operations);
        lemma_retired_slot_stays_retired(table, earlier, slot);
        lemma_after_all_keeps_wf(table, earlier);
        if !before.needs_slot() {
            assert(before.free[before.free.len() - 1] == before.free.last());
        }
        if after.free.contains(slot) {
            let k = choose|k: int| 0 <= k < after.free.len() && after.free[k] == slot;
            if k < before.free.len() {
                assert(before.free[k] == slot);
            }
        }
    }
}

} // verus!
