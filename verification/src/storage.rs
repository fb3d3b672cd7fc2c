use vstd::prelude::*;
use ic_stable_structures::memory_manager::{MemoryId, MemoryManager, VirtualMemory};
use ic_stable_structures::{DefaultMemoryImpl, StableBTreeMap};

verus! {

// Each store owns one `StableBTreeMap` over its own virtual memory region, as
// the glossary's Persistent Map: a durable, ordered key-to-record store. The
// maps live behind the trusted functions of this module; `record_contents`
// and `slot_contents` name what each one holds.

/// A durable ordered map from record id to encoded record bytes.
///
/// Relies on `ic_stable_structures::StableBTreeMap<u64, Vec<u8>, _>`; the
/// struct is opaque to the verifier.
#[verifier::external_body]
pub struct RecordStore {
    map: StableBTreeMap<u64, Vec<u8>, VirtualMemory<DefaultMemoryImpl>>,
}

/// The id-to-bytes contents of a `RecordStore`.
pub uninterp spec fn record_contents(s: RecordStore) -> Map<u64, Seq<u8>>;

/// A durable map holding one single-slot monotonic counter per entity kind.
///
/// Relies on `ic_stable_structures::StableBTreeMap<u8, u64, _>`; the struct
/// is opaque to the verifier.
#[verifier::external_body]
pub struct SlotStore {
    map: StableBTreeMap<u8, u64, VirtualMemory<DefaultMemoryImpl>>,
}

/// The slot-to-value contents of a `SlotStore`.
pub uninterp spec fn slot_contents(s: SlotStore) -> Map<u8, u64>;

/// Relies on `MemoryManager::init` over the process's default memory and on
/// `StableBTreeMap::init`: one manager, four distinct virtual regions (so
/// the stores never alias one another), each store loading whatever its
/// region durably held — on fresh memory, nothing; after a restart, the
/// previously persisted records. Nothing is promised of the recovered
/// contents: the callers rebuild and check their models from what they
/// read.
#[verifier::external_body]
pub fn open_stores() -> (RecordStore, RecordStore, SlotStore, SlotStore) {
    let manager = MemoryManager::init(DefaultMemoryImpl::default());
    (
        RecordStore { map: StableBTreeMap::init(manager.get(MemoryId::new(0))) },
        RecordStore { map: StableBTreeMap::init(manager.get(MemoryId::new(1))) },
        SlotStore { map: StableBTreeMap::init(manager.get(MemoryId::new(2))) },
        SlotStore { map: StableBTreeMap::init(manager.get(MemoryId::new(3))) },
    )
}

/// Relies on `StableBTreeMap::get`: the value stored under `key`, if any.
#[verifier::external_body]
pub fn record_get(s: &RecordStore, key: u64) -> (r: Option<Vec<u8>>)
    ensures
        match r {
            Some(v) => record_contents(*s).dom().contains(key) && v@ == record_contents(*s)[key],
            None => !record_contents(*s).dom().contains(key),
        },
{
    s.map.get(&key)
}

/// Relies on `StableBTreeMap::insert`: an upsert of `value` under `key`.
#[verifier::external_body]
pub fn record_insert(s: &mut RecordStore, key: u64, value: Vec<u8>)
    ensures
        record_contents(*final(s)) == record_contents(*old(s)).insert(key, value@),
{
    s.map.insert(key, value);
}

/// Relies on `StableBTreeMap::iter`, which walks the entries sorted by key,
/// and on `LazyEntry::into_pair`, which hands each entry out as a pair.
#[verifier::external_body]
pub fn record_entries(s: &RecordStore) -> (r: Vec<(u64, Vec<u8>)>)
    ensures
        forall|i: int|
            0 <= i < r@.len() ==> record_contents(*s).contains_pair(
                #[trigger] r@[i].0,
                r@[i].1@,
            ),
        forall|k: u64|
            record_contents(*s).dom().contains(k) ==> exists|i: int|
                0 <= i < r@.len() && #[trigger] r@[i].0 == k,
        forall|i: int, j: int| 0 <= i < j < r@.len() ==> r@[i].0 < r@[j].0,
{
    let mut out = Vec::new();
    for entry in s.map.iter() {
        out.push(entry.into_pair());
    }
    out
}

/// Relies on `StableBTreeMap::get`: the value stored under `slot`, if any.
#[verifier::external_body]
pub fn slot_get(s: &SlotStore, slot: u8) -> (r: Option<u64>)
    ensures
        match r {
            Some(v) => slot_contents(*s).dom().contains(slot) && v == slot_contents(*s)[slot],
            None => !slot_contents(*s).dom().contains(slot),
        },
{
    s.map.get(&slot)
}

/// Relies on `StableBTreeMap::insert`: an upsert of `value` under `slot`.
#[verifier::external_body]
pub fn slot_insert(s: &mut SlotStore, slot: u8, value: u64)
    ensures
        slot_contents(*final(s)) == slot_contents(*old(s)).insert(slot, value),
{
    s.map.insert(slot, value);
}

} // verus!
