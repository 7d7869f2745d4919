//! The stable-memory structures that hold the registry's data.
//!
//! Everything in this module is trusted: the contracts restate what the
//! `ic-stable-structures` crate documents, and nothing here is proved.

use ic_stable_structures::memory_manager::{MemoryId, MemoryManager, VirtualMemory};
use ic_stable_structures::storable::Blob;
use ic_stable_structures::{Cell, DefaultMemoryImpl, StableBTreeMap};
use vstd::prelude::*;

verus! {

/// The largest number of bytes that one stored record may occupy.
pub const MAX_RECORD_BYTES: usize = 1024;

/// The memory manager that divides the default memory into regions.
#[verifier::external_body]
pub struct Regions {
    inner: MemoryManager<DefaultMemoryImpl>,
}

/// A `StableBTreeMap` from identifiers to encoded records of at most
/// `MAX_RECORD_BYTES` bytes each.
#[verifier::external_body]
pub struct RecordMap {
    inner: StableBTreeMap<u64, Blob<1024>, VirtualMemory<DefaultMemoryImpl>>,
}

/// A stable `Cell` that holds the last identifier issued.
#[verifier::external_body]
pub struct IdCell {
    inner: Cell<u64, VirtualMemory<DefaultMemoryImpl>>,
}

/// The key-value pairs that a record map currently holds.
pub uninterp spec fn stored_records(map: RecordMap) -> Map<u64, Seq<u8>>;

/// The number that an identifier cell currently holds.
pub uninterp spec fn stored_counter(cell: IdCell) -> u64;

/// `listing` holds exactly the pairs of `records`, by strictly ascending key.
pub open spec fn lists_in_key_order(listing: Seq<(u64, Vec<u8>)>, records: Map<u64, Seq<u8>>) -> bool {
    &&& forall|i: int, j: int| 0 <= i < j < listing.len() ==> listing[i].0 < listing[j].0
    &&& forall|i: int|
        0 <= i < listing.len() ==> records.contains_key(#[trigger] listing[i].0)
            && records[listing[i].0] == listing[i].1@
    &&& forall|k: u64| #[trigger]
        records.contains_key(k) ==> exists|i: int| 0 <= i < listing.len() && listing[i].0 == k
}

impl Regions {
    /// `MemoryManager::init` over `DefaultMemoryImpl::default()`. Nothing is
    /// claimed of what the regions hold. In a canister the default memory is
    /// the one stable memory, so only one manager may be in use at a time.
    #[verifier::external_body]
    pub(crate) fn over_default_memory() -> (regions: Regions) {
        Regions { inner: MemoryManager::init(DefaultMemoryImpl::default()) }
    }
}

impl RecordMap {
    /// `StableBTreeMap::new` on region `region`: a new map, which overwrites
    /// whatever the region held, and is empty.
    #[verifier::external_body]
    pub(crate) fn format(regions: &Regions, region: u8) -> (fresh: RecordMap)
        requires
            region < 255,
        ensures
            stored_records(fresh).dom() == Set::<u64>::empty(),
    {
        RecordMap { inner: StableBTreeMap::new(regions.inner.get(MemoryId::new(region))) }
    }

    /// `StableBTreeMap::init` on region `region`: the map that the region
    /// holds, or a new one. Nothing is claimed of its contents. The call
    /// panics on a map that was written with another layout.
    #[verifier::external_body]
    pub(crate) fn attach(regions: &Regions, region: u8) -> (attached: RecordMap)
        requires
            region < 255,
    {
        RecordMap { inner: StableBTreeMap::init(regions.inner.get(MemoryId::new(region))) }
    }

    /// `StableBTreeMap::get`: the value stored under `key`, if there is one.
    #[verifier::external_body]
    pub(crate) fn get(&self, key: u64) -> (found: Option<Vec<u8>>)
        ensures
            found is Some <==> stored_records(*self).contains_key(key),
            found matches Some(bytes) ==> bytes@ == stored_records(*self)[key],
    {
        self.inner.get(&key).map(|blob| blob.as_slice().to_vec())
    }

    /// `StableBTreeMap::insert`: stores `value` under `key` and returns the
    /// value that was there before. The map refuses longer values by a panic,
    /// so they are left out. It also panics where stable memory is used up.
    #[verifier::external_body]
    pub(crate) fn insert(&mut self, key: u64, value: &[u8]) -> (previous: Option<Vec<u8>>)
        requires
            value@.len() <= MAX_RECORD_BYTES,
        ensures
            stored_records(*final(self)) == stored_records(*old(self)).insert(key, value@),
            previous is Some <==> stored_records(*old(self)).contains_key(key),
            previous matches Some(bytes) ==> bytes@ == stored_records(*old(self))[key],
    {
        let blob = Blob::<1024>::try_from(value).unwrap();
        self.inner.insert(key, blob).map(|old| old.as_slice().to_vec())
    }

    /// `StableBTreeMap::remove`: takes out the entry under `key` and returns
    /// its value, if there was one.
    #[verifier::external_body]
    pub(crate) fn remove(&mut self, key: u64) -> (removed: Option<Vec<u8>>)
        ensures
            stored_records(*final(self)) == stored_records(*old(self)).remove(key),
            removed is Some <==> stored_records(*old(self)).contains_key(key),
            removed matches Some(bytes) ==> bytes@ == stored_records(*old(self))[key],
    {
        self.inner.remove(&key).map(|old| old.as_slice().to_vec())
    }

    /// `StableBTreeMap::iter`, collected: every entry, sorted by key.
    #[verifier::external_body]
    pub(crate) fn entries(&self) -> (listing: Vec<(u64, Vec<u8>)>)
        ensures
            lists_in_key_order(listing@, stored_records(*self)),
    {
        self.inner.iter().map(|(key, blob)| (key, blob.as_slice().to_vec())).collect()
    }
}

impl IdCell {
    /// `Cell::new` on region `region`: a cell that holds `value`, or nothing
    /// where the memory could not take it.
    #[verifier::external_body]
    pub(crate) fn format(regions: &Regions, region: u8, value: u64) -> (cell: Option<IdCell>)
        requires
            region < 255,
        ensures
            cell matches Some(c) ==> stored_counter(c) == value,
    {
        Cell::new(regions.inner.get(MemoryId::new(region)), value).ok().map(|inner| IdCell { inner })
    }

    /// `Cell::init` on region `region`: the cell that the region holds, or a
    /// new one with `default_value`. Nothing is claimed of its value.
    #[verifier::external_body]
    pub(crate) fn attach(regions: &Regions, region: u8, default_value: u64) -> (cell: Option<IdCell>)
        requires
            region < 255,
    {
        Cell::init(regions.inner.get(MemoryId::new(region)), default_value).ok().map(
            |inner| IdCell { inner },
        )
    }

    /// `Cell::get`: the number in the cell.
    #[verifier::external_body]
    pub(crate) fn get(&self) -> (value: u64)
        ensures
            value == stored_counter(*self),
    {
        *self.inner.get()
    }

    /// `Cell::set`: writes `value` to the cell. The eight bytes of a `u64`
    /// always fit in the page that the cell took when it was made, so the
    /// write cannot be refused.
    #[verifier::external_body]
    pub(crate) fn set(&mut self, value: u64)
        ensures
            stored_counter(*final(self)) == value,
    {
        let _ = self.inner.set(value);
    }
}

} // verus!
