//! A storage with a fixed capacity and no `ReserveStorage`, to check that a
//! map works with such a storage and reports the storage's own error type.

use gen_map::{
    ArrayStorage, CapacityError, FullError, GenMap, InsertError, InsertWithError, KeyConfig, MapConfig, MapSlot,
    Split, StorageError,
};
use std::vec::Vec;

const CAP: usize = 4;

#[derive(Debug, Clone, Copy, PartialEq, Eq, PartialOrd, Ord, Hash)]
struct Four;

impl KeyConfig for Four {
    type Idx = u8;
    type Gen = u8;
    type Layout = Split;
}

impl<T> MapConfig<T> for Four {
    type KeyConfig = Self;
    type Storage = ArrayStorage<MapSlot<T, Self>, CAP>;
}

fn full_map() -> GenMap<i32, Four> {
    let mut map = GenMap::<i32, Four>::new_with_config();
    for i in 0..CAP as i32 {
        map.insert(i);
    }
    map
}

/// Everything `iter` yields from the front, in order.
#[allow(dead_code)]
fn entries<'a, T, C: gen_map::MapConfig<T>>(mut iter: gen_map::Iter<'a, T, C>) -> Vec<(gen_map::Key<C::KeyConfig>, &'a T)> {
    let mut out = Vec::new();
    while let Some(entry) = iter.next() {
        out.push(entry);
    }
    out
}

#[test]
fn the_storage_error_is_the_storages_own_type() {
    let mut map = full_map();
    let error: FullError<StorageError<i32, Four>> = map.vacant_entry().err().unwrap();
    assert_eq!(error, FullError::StorageFull(CapacityError));
    assert_eq!(map.len(), CAP);
    assert_eq!(map.slots_len(), CAP);
}

#[test]
fn try_insert_hands_back_value_and_reason() {
    let mut map = full_map();
    let error = map.try_insert(99).unwrap_err();
    assert_eq!(error.into_parts(), (FullError::StorageFull(CapacityError), 99));
    assert!(matches!(
        map.try_insert(99),
        Err(InsertError::StorageFull(99, CapacityError))
    ));
}

#[test]
fn try_insert_with_key_does_not_call_the_closure_when_full() {
    let mut map = full_map();
    let mut called = false;
    let result = map.try_insert_with_key(|_| {
        called = true;
        Ok::<_, ()>(0)
    });
    assert_eq!(
        result,
        Err(InsertWithError::Full(FullError::StorageFull(CapacityError)))
    );
    assert!(!called);
}

#[test]
fn a_freed_slot_is_reused_without_asking_the_storage() {
    let mut map = full_map();
    let key = map.iter().next().map(|(k, _)| k).unwrap();
    assert_eq!(map.remove(key), Some(0));
    let again = map.try_insert(10).unwrap();
    assert_eq!(again.idx(), key.idx());
    assert_ne!(again, key);
    assert_eq!(*map.get(again).unwrap(), 10);
    assert_eq!(map.slots_len(), CAP);
}

#[test]
fn clone_works_on_a_fixed_storage() {
    let map = full_map();
    let copy = map.clone();
    assert_eq!(copy.len(), CAP);
    for (key, value) in entries(map.iter()) {
        assert_eq!(*copy.get(key).unwrap(), *value);
    }
}
