use tinywasm_component_abi::resources::{ResourceError, ResourceHandle, ResourceTable, ResourceType};

fn kind() -> ResourceType {
    ResourceType::new(7)
}

fn filled(max: u16) -> (ResourceTable<u32>, Vec<ResourceHandle>) {
    let mut table = ResourceTable::new(max);
    let mut handles = Vec::new();
    for value in 0..u32::from(max) {
        handles.push(table.insert(kind(), value).unwrap());
    }
    (table, handles)
}

#[test]
fn raw_words_round_trip() {
    for raw in [0, 1, 0x8000_0000, u32::MAX] {
        assert_eq!(ResourceHandle::from_raw(raw).into_raw(), raw);
    }
    assert_eq!(ResourceHandle::from_raw(5), ResourceHandle::from_raw(5));
    assert_ne!(ResourceHandle::from_raw(5), ResourceHandle::from_raw(6));
    assert_eq!(ResourceType::new(3), ResourceType::new(3));
    assert_ne!(ResourceType::new(3), ResourceType::new(4));
}

#[test]
fn handle_words_pack_slot_and_generation() {
    for (max, second_generation) in [(1_u16, 3_u32), (2, 5), (3, 5), (4, 9), (255, 257), (256, 513), (u16::MAX, 65_537)] {
        let mut table = ResourceTable::new(max);
        let first = table.insert(kind(), 'a').unwrap();
        assert_eq!(first.into_raw(), 1);
        table.drop_handle(first, kind()).unwrap();
        assert_eq!(table.insert(kind(), 'b').unwrap().into_raw(), second_generation);
    }
    let (_, handles) = filled(3);
    let words: Vec<u32> = handles.iter().map(|handle| handle.into_raw()).collect();
    assert_eq!(words, vec![1, 2, 3]);
}

#[test]
fn last_freed_slot_is_reused_first() {
    let (mut table, handles) = filled(3);
    table.drop_handle(handles[0], kind()).unwrap();
    table.drop_handle(handles[2], kind()).unwrap();
    assert_eq!(table.insert(kind(), 10).unwrap().into_raw(), 4 + 3);
    assert_eq!(table.insert(kind(), 11).unwrap().into_raw(), 4 + 1);
    assert_eq!(table.insert(kind(), 12), Err(ResourceError::Full));
}

#[test]
fn zero_is_never_valid() {
    let (mut table, _) = filled(4);
    let zero = ResourceHandle::from_raw(0);
    assert_eq!(table.get(zero, kind()), Err(ResourceError::InvalidHandle));
    assert_eq!(table.get_mut(zero, kind()), Err(ResourceError::InvalidHandle));
    assert_eq!(table.remove(zero, kind()), Err(ResourceError::InvalidHandle));
    assert_eq!(table.drop_handle(zero, kind()), Err(ResourceError::InvalidHandle));
    assert_eq!(table.len(), 4);
}

#[test]
fn unused_slot_numbers_are_invalid() {
    // A cap of two leaves slot number three without a slot.
    let (table, _) = filled(2);
    for raw in [3, 4, 5, 6, 7, u32::MAX] {
        assert_eq!(table.get(ResourceHandle::from_raw(raw), kind()), Err(ResourceError::InvalidHandle));
    }
}

#[test]
fn wrong_type_changes_nothing() {
    let (mut table, handles) = filled(2);
    let other = ResourceType::new(8);
    assert_eq!(table.get(handles[1], other), Err(ResourceError::WrongType));
    assert_eq!(table.get_mut(handles[1], other), Err(ResourceError::WrongType));
    assert_eq!(table.remove(handles[1], other), Err(ResourceError::WrongType));
    assert_eq!(table.drop_handle(handles[1], other), Err(ResourceError::WrongType));
    assert_eq!(table.get(handles[1], kind()), Ok(&1));
    assert_eq!(table.len(), 2);
}

#[test]
fn values_are_read_back_until_touched() {
    let (mut table, handles) = filled(3);
    *table.get_mut(handles[1], kind()).unwrap() = 50;
    assert_eq!(table.remove(handles[0], kind()), Ok(0));
    let replacement = table.insert(kind(), 60).unwrap();
    assert_eq!(table.get(handles[1], kind()), Ok(&50));
    assert_eq!(table.get(handles[2], kind()), Ok(&2));
    assert_eq!(table.get(replacement, kind()), Ok(&60));
    assert_eq!(table.get(handles[0], kind()), Err(ResourceError::InvalidHandle));
}

#[test]
fn refused_operations_leave_the_value_readable() {
    let (mut table, handles) = filled(2);
    let other = ResourceType::new(8);
    assert_eq!(table.drop_handle(handles[0], other), Err(ResourceError::WrongType));
    assert_eq!(table.remove(handles[0], other), Err(ResourceError::WrongType));
    assert!(table.get_mut(handles[0], other).is_err());
    assert_eq!(table.insert(kind(), 9), Err(ResourceError::Full));
    assert_eq!(table.get(handles[0], kind()), Ok(&0));
    *table.get_mut(handles[0], kind()).unwrap() = 30;
    assert_eq!(table.drop_handle(handles[0], other), Err(ResourceError::WrongType));
    assert_eq!(table.get(handles[0], kind()), Ok(&30));
}

#[test]
fn length_counts_successes_only() {
    let mut table = ResourceTable::new(3);
    let mut handles = Vec::new();
    let mut inserted = 0_usize;
    let mut removed = 0_usize;
    for round in 0..100_usize {
        if let Ok(handle) = table.insert(kind(), round) {
            handles.push(handle);
            inserted += 1;
        }
        if round % 3 == 0 {
            let handle = handles[round / 3 % handles.len()];
            for _ in 0..2 {
                if table.remove(handle, kind()).is_ok() {
                    removed += 1;
                }
            }
        }
        assert_eq!(table.len(), inserted - removed);
    }
    assert_eq!(table.len(), 2);
    assert_eq!((inserted, removed), (36, 34));
}

#[test]
fn vacated_slots_wait_until_reused() {
    let (mut table, handles) = filled(7);
    table.drop_handle(handles[4], kind()).unwrap();
    table.drop_handle(handles[1], kind()).unwrap();
    for _ in 0..10 {
        let handle = table.insert_reserved(kind(), 70, false).unwrap();
        assert_eq!(handle.into_raw() & 7, 2);
        table.drop_handle(handle, kind()).unwrap();
    }
    assert_eq!(table.insert_reserved(kind(), 71, false).unwrap().into_raw() & 7, 2);
    assert_eq!(table.insert_reserved(kind(), 72, false).unwrap().into_raw(), 8 + 5);
    assert_eq!(table.insert_reserved(kind(), 73, false), Err(ResourceError::Full));
}

#[test]
fn each_live_slot_has_one_word_under_one_type() {
    let mut table = ResourceTable::new(3);
    let kinds = [ResourceType::new(1), ResourceType::new(2), ResourceType::new(3)];
    for (value, &kind) in kinds.iter().enumerate() {
        table.insert(kind, value).unwrap();
    }
    table.drop_handle(ResourceHandle::from_raw(2), kinds[1]).unwrap();
    let mut accepted = Vec::new();
    for raw in 0..4096_u32 {
        let handle = ResourceHandle::from_raw(raw);
        let results: Vec<_> = kinds.iter().map(|&kind| table.get(handle, kind)).collect();
        let oks = results.iter().filter(|result| result.is_ok()).count();
        let wrong = results.iter().filter(|result| **result == Err(ResourceError::WrongType)).count();
        if oks == 1 {
            assert_eq!(wrong, 2);
            accepted.push(raw);
        } else {
            assert!(results.iter().all(|result| *result == Err(ResourceError::InvalidHandle)));
        }
    }
    assert_eq!(accepted, vec![1, 3]);
    assert_eq!(accepted.len(), table.len());
}

#[test]
fn no_handle_is_issued_twice() {
    let mut table = ResourceTable::new(3);
    let mut issued = std::collections::BTreeSet::new();
    for round in 0..500_u32 {
        let a = table.insert(kind(), round).unwrap();
        let b = table.insert(kind(), round).unwrap();
        assert!(issued.insert(a.into_raw()));
        assert!(issued.insert(b.into_raw()));
        if round % 2 == 0 {
            table.drop_handle(a, kind()).unwrap();
            table.drop_handle(b, kind()).unwrap();
        } else {
            table.drop_handle(b, kind()).unwrap();
            table.drop_handle(a, kind()).unwrap();
        }
        for &raw in &issued {
            assert_eq!(table.get(ResourceHandle::from_raw(raw), kind()), Err(ResourceError::InvalidHandle));
        }
    }
    assert!(table.is_empty());
}

#[test]
fn retired_slots_count_against_the_cap() {
    let (mut table, handles) = filled(u16::MAX);
    let mut last = handles[65_534];
    assert_eq!(last.into_raw(), 65_535);
    for _ in 0..u16::MAX {
        table.drop_handle(last, kind()).unwrap();
        last = table.insert(kind(), 9).unwrap();
    }
    assert_eq!(last.into_raw(), u32::MAX);
    table.drop_handle(last, kind()).unwrap();
    assert_eq!(table.len(), 65_534);
    assert_eq!(table.insert(kind(), 10), Err(ResourceError::Full));
    assert_eq!(table.get(last, kind()), Err(ResourceError::InvalidHandle));
    assert_eq!(table.get(handles[65_534], kind()), Err(ResourceError::InvalidHandle));
    // Another slot still has generations left.
    table.drop_handle(handles[0], kind()).unwrap();
    assert_eq!(table.insert(kind(), 11).unwrap().into_raw(), 65_537);
}

#[test]
fn handles_collide_across_tables() {
    let mut a = ResourceTable::new(4);
    let mut b = ResourceTable::new(4);
    let handle = a.insert(kind(), "a").unwrap();
    assert_eq!(b.insert(kind(), "b").unwrap(), handle);
    assert_eq!(a.get(handle, kind()), Ok(&"a"));
    assert_eq!(b.get(handle, kind()), Ok(&"b"));
}

#[test]
fn missing_storage_refuses_only_new_slots() {
    let mut table = ResourceTable::new(2);
    assert_eq!(table.insert_reserved(kind(), 1, false), Err(ResourceError::Allocation));
    assert!(table.is_empty());
    assert!(table.reserve_slot());
    let first = table.insert_reserved(kind(), 2, true).unwrap();
    assert_eq!(first.into_raw(), 1);
    table.drop_handle(first, kind()).unwrap();
    assert_eq!(table.insert_reserved(kind(), 3, false).unwrap().into_raw(), 5);
    assert_eq!(table.insert_reserved(kind(), 4, false), Err(ResourceError::Allocation));
    assert_eq!(table.insert(kind(), 5).unwrap().into_raw(), 2);
    assert_eq!(table.insert_reserved(kind(), 6, false), Err(ResourceError::Full));
    assert_eq!(table.len(), 2);
}

#[test]
fn allocator_failure_is_reported() {
    let mut table: ResourceTable<[u8; 1 << 60]> = ResourceTable::new(1);
    assert!(!table.reserve_slot());
    assert!(table.is_empty());
}

#[test]
fn errors_have_texts() {
    assert_eq!(ResourceError::Full.to_string(), "host resource table is full");
    assert_eq!(ResourceError::Allocation.to_string(), "host resource table allocation failed");
    assert_eq!(ResourceError::InvalidHandle.to_string(), "invalid host resource handle");
    assert_eq!(ResourceError::WrongType.to_string(), "host resource handle has the wrong type");
}

#[test]
fn errors_become_runtime_errors() {
    for error in [ResourceError::Full, ResourceError::Allocation, ResourceError::InvalidHandle, ResourceError::WrongType] {
        let converted = tinywasm::Error::from(error);
        assert!(converted == tinywasm::Error::Other(error.to_string()));
    }
    let refused: tinywasm::Error = ResourceError::WrongType.into();
    assert!(matches!(refused, tinywasm::Error::Other(text) if text == "host resource handle has the wrong type"));
}

fn sendable<T: Send>(value: T) -> T {
    value
}

#[test]
fn table_is_send() {
    let table: ResourceTable<u32> = sendable(ResourceTable::new(2));
    assert_eq!(table.len(), 0);
}
