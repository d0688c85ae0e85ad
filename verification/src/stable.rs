//! The stable-memory structures under the store, and what is taken on trust
//! about them.
//!
//! The structures come from `ic_stable_structures`. Their code is not
//! verified here: each function below states, as its contract, what the
//! structure's own source and documentation say, and everything above this
//! module is proved from these contracts alone.

use vstd::prelude::*;
use ic_stable_structures::memory_manager::{MemoryId, MemoryManager, VirtualMemory};
use ic_stable_structures::{Cell, DefaultMemoryImpl, StableBTreeMap};

verus! {

/// A stable memory split into independent regions
/// (`ic_stable_structures::memory_manager::MemoryManager`).
#[verifier::external_body]
pub struct Regions {
    manager: MemoryManager<DefaultMemoryImpl>,
}

/// A map from identifiers to byte strings kept in one region of stable memory
/// (`ic_stable_structures::StableBTreeMap`).
#[verifier::external_body]
pub struct Table {
    map: StableBTreeMap<u64, Vec<u8>, VirtualMemory<DefaultMemoryImpl>>,
}

/// A single integer kept in one region of stable memory
/// (`ic_stable_structures::Cell`).
#[verifier::external_body]
pub struct Counter {
    cell: Cell<u64, VirtualMemory<DefaultMemoryImpl>>,
}

/// The key-value pairs that a table holds.
pub uninterp spec fn table_entries(t: Table) -> Map<u64, Seq<u8>>;

/// The integer that a counter holds.
pub uninterp spec fn counter_value(c: Counter) -> u64;

/// The largest number of bytes one table value may have: the map writes a
/// value's length as a 32-bit integer.
pub const MAX_VALUE_BYTES: usize = 0xFFFF_FFFF;

/// The number of region slots that a `Regions` offers.
pub const REGION_SLOTS: u8 = 255;

/// Calls `MemoryManager::init` on a default memory of the platform: on a
/// canister its stable memory, elsewhere a fresh vector. Nothing is claimed of
/// the result. `init` panics where the memory holds a manager in a layout that
/// this version cannot read.
#[verifier::external_body]
pub(crate) fn regions_open() -> (r: Regions) {
    Regions { manager: MemoryManager::init(DefaultMemoryImpl::default()) }
}

/// Calls `StableBTreeMap::new` on the region with the given slot. `new`
/// writes a fresh header with length zero and no root, so the map is empty
/// whatever the region held before. The slot must not back another live
/// structure. `MemoryId::new` panics on slot 255, and `new` panics when
/// stable memory cannot grow to take the header.
#[verifier::external_body]
pub(crate) fn table_create(regions: &Regions, slot: u8) -> (t: Table)
    requires
        slot < REGION_SLOTS,
    ensures
        table_entries(t) == (Map::<u64, Seq<u8>>::empty()),
{
    Table { map: StableBTreeMap::new(regions.manager.get(MemoryId::new(slot))) }
}

/// Calls `StableBTreeMap::init` on the region with the given slot: the map
/// that the region holds, or an empty one where it holds none. What the map
/// holds depends on what was written to the region earlier, so nothing is
/// claimed of it. The slot must not back another live structure.
/// `MemoryId::new` panics on slot 255, and `init` panics where the region
/// holds a map in a layout that this version cannot read. Where the region
/// was written by anything but such a map, later calls on the map may panic.
#[verifier::external_body]
pub(crate) fn table_open(regions: &Regions, slot: u8) -> (t: Table)
    requires
        slot < REGION_SLOTS,
{
    Table { map: StableBTreeMap::init(regions.manager.get(MemoryId::new(slot))) }
}

/// Calls `StableBTreeMap::insert`: the pair is added, in place of the pair
/// that the map held for the key, if any. The length of the value is bounded
/// because the map stores it in 32 bits. The call panics only when stable
/// memory cannot grow any further.
#[verifier::external_body]
pub(crate) fn table_insert(t: &mut Table, key: u64, value: Vec<u8>)
    requires
        value@.len() <= MAX_VALUE_BYTES,
    ensures
        table_entries(*final(t)) == table_entries(*old(t)).insert(key, value@),
{
    t.map.insert(key, value);
}

/// Calls `StableBTreeMap::get`: the value stored under the key, if any.
#[verifier::external_body]
pub(crate) fn table_get(t: &Table, key: u64) -> (r: Option<Vec<u8>>)
    ensures
        match r {
            Some(v) => table_entries(*t).dom().contains(key) && v@ == table_entries(*t)[key],
            None => !table_entries(*t).dom().contains(key),
        },
{
    t.map.get(&key)
}

/// Calls `StableBTreeMap::iter` and collects its entries: every pair of the
/// map exactly once, in ascending order of the keys.
#[verifier::external_body]
pub(crate) fn table_scan(t: &Table) -> (r: Vec<(u64, Vec<u8>)>)
    ensures
        forall|i: int|
            0 <= i < r@.len() ==> table_entries(*t).dom().contains(#[trigger] r@[i].0)
                && table_entries(*t)[r@[i].0] == r@[i].1@,
        forall|i: int, j: int| 0 <= i < j < r@.len() ==> r@[i].0 < r@[j].0,
        forall|k: u64|
            table_entries(*t).dom().contains(k) ==> exists|i: int|
                0 <= i < r@.len() && #[trigger] r@[i].0 == k,
{
    t.map.iter().map(|e| e.into_pair()).collect()
}

/// Calls `Cell::new` on the region with the given slot, with zero as the
/// value: the cell then holds zero, whatever the region held before. The slot
/// must not back another live structure. `MemoryId::new` panics on slot 255,
/// and `new` panics when stable memory cannot grow to take the cell.
#[verifier::external_body]
pub(crate) fn counter_create(regions: &Regions, slot: u8) -> (c: Counter)
    requires
        slot < REGION_SLOTS,
    ensures
        counter_value(c) == 0,
{
    Counter { cell: Cell::new(regions.manager.get(MemoryId::new(slot)), 0) }
}

/// Calls `Cell::init` on the region with the given slot, with zero as the
/// value for a region that holds no cell. What the cell holds depends on what
/// was written to the region earlier, so nothing is claimed of it. The slot
/// must not back another live structure. `MemoryId::new` panics on slot 255,
/// and `init` panics where the region holds a cell in a layout that this
/// version cannot read.
#[verifier::external_body]
pub(crate) fn counter_open(regions: &Regions, slot: u8) -> (c: Counter)
    requires
        slot < REGION_SLOTS,
{
    Counter { cell: Cell::init(regions.manager.get(MemoryId::new(slot)), 0) }
}

/// Calls `Cell::get`: the value that the cell holds.
#[verifier::external_body]
pub(crate) fn counter_get(c: &Counter) -> (v: u64)
    ensures
        v == counter_value(*c),
{
    *c.cell.get()
}

/// Calls `Cell::set`: the cell holds the new value, and the one it held is
/// returned.
#[verifier::external_body]
pub(crate) fn counter_set(c: &mut Counter, value: u64) -> (prev: u64)
    ensures
        counter_value(*final(c)) == value,
        prev == counter_value(*old(c)),
{
    c.cell.set(value)
}

} // verus!
