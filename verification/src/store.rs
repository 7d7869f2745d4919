//! The durable store: a map of saloon records and the counter that issues
//! their identifiers, read as a `Registry`.

use crate::codec::{decode_saloon, encode_saloon, fits, lemma_read_saloon_bytes, read_saloon, saloon_bytes};
use crate::model::{Saloon, SaloonService, SaloonView};
use crate::registry::{ascending, lemma_keys_are_ids, sound_saloon, sound_service, Registry};
use crate::stable::{lists_in_key_order, stored_counter, stored_records, IdCell, RecordMap, Regions};
use crate::validate::blank;
use vstd::prelude::*;

verus! {

/// The region of the default memory that holds the identifier counter.
pub const COUNTER_REGION: u8 = 0;

/// The region of the default memory that holds the saloon records.
pub const RECORDS_REGION: u8 = 1;

/// The saloons and the identifier counter, in stable memory.
pub struct SaloonStore {
    records: RecordMap,
    counter: IdCell,
}

/// Every value in `records` is the record of a saloon.
pub open spec fn all_records(records: Map<u64, Seq<u8>>) -> bool {
    forall|id: u64| #[trigger] records.contains_key(id) ==> read_saloon(records[id]) is Some
}

/// The saloons that `records` stand for.
pub open spec fn decoded(records: Map<u64, Seq<u8>>) -> Map<u64, SaloonView> {
    Map::new(|id: u64| records.contains_key(id), |id: u64| read_saloon(records[id]).unwrap())
}

/// The registry that records and a counter value stand for.
pub open spec fn registry_of(records: Map<u64, Seq<u8>>, last_id: u64) -> Registry {
    Registry { saloons: decoded(records), last_id }
}

/// Records and a counter value make a store when every value is a record
/// and the registry they stand for is in order.
pub open spec fn well_stored(records: Map<u64, Seq<u8>>, last_id: u64) -> bool {
    &&& all_records(records)
    &&& registry_of(records, last_id).inv()
}

/// The registry without saloons, before any identifier is issued.
pub open spec fn empty_registry() -> Registry {
    Registry { saloons: Map::empty(), last_id: 0 }
}

impl View for SaloonStore {
    type V = Registry;

    closed spec fn view(&self) -> Registry {
        registry_of(stored_records(self.records), stored_counter(self.counter))
    }
}

proof fn lemma_decoded_insert(records: Map<u64, Seq<u8>>, saloon: SaloonView)
    requires
        fits(saloon),
    ensures
        decoded(records.insert(saloon.id, saloon_bytes(saloon))) == decoded(records).insert(
            saloon.id,
            saloon,
        ),
        all_records(records) ==> all_records(records.insert(saloon.id, saloon_bytes(saloon))),
{
    lemma_read_saloon_bytes(saloon);
    assert(decoded(records.insert(saloon.id, saloon_bytes(saloon))) =~= decoded(records).insert(
        saloon.id,
        saloon,
    ));
}

proof fn lemma_decoded_remove(records: Map<u64, Seq<u8>>, id: u64)
    ensures
        decoded(records.remove(id)) == decoded(records).remove(id),
        all_records(records) ==> all_records(records.remove(id)),
{
    assert(decoded(records.remove(id)) =~= decoded(records).remove(id));
}

/// Whether a service holds a name and a description.
fn check_service(service: &SaloonService) -> (ok: bool)
    ensures
        ok == sound_service(service@),
{
    !blank(service.service_name.as_str()) && !blank(service.service_description.as_str())
}

/// Whether a saloon may stand in the store.
pub fn check_saloon(saloon: &Saloon) -> (ok: bool)
    ensures
        ok == sound_saloon(saloon@),
{
    if saloon.owner.as_str().is_empty() || blank(saloon.name.as_str()) || blank(
        saloon.location.as_str(),
    ) || blank(saloon.saloon_url.as_str()) {
        return false;
    }
    let mut i: usize = 0;
    while i < saloon.saloonservices.len()
        invariant
            i <= saloon.saloonservices.len(),
            forall|j: int| 0 <= j < i ==> sound_service(#[trigger] saloon@.saloonservices[j]),
        decreases saloon.saloonservices.len() - i,
    {
        assert(saloon@.saloonservices[i as int] == saloon.saloonservices@[i as int]@);
        if !check_service(&saloon.saloonservices[i]) {
            return false;
        }
        i += 1;
    }
    encode_saloon(saloon).is_some()
}

impl SaloonStore {
    /// The store is in order: every value in it is a record, and the
    /// registry it stands for keeps its invariant.
    pub closed spec fn wf(&self) -> bool {
        well_stored(stored_records(self.records), stored_counter(self.counter))
    }

    /// A store in order stands for a registry in order.
    pub proof fn lemma_wf(&self)
        requires
            self.wf(),
        ensures
            self@.inv(),
    {
    }

    /// A new, empty store over the default memory, which overwrites what the
    /// memory held. No identifier has been issued. Nothing comes back where
    /// the memory cannot take the counter.
    pub fn new() -> (store: Option<SaloonStore>)
        ensures
            store matches Some(s) ==> s.wf() && s@ == empty_registry(),
    {
        let regions = Regions::over_default_memory();
        let records = RecordMap::format(&regions, RECORDS_REGION);
        let counter = IdCell::format(&regions, COUNTER_REGION, 0);
        assert(decoded(stored_records(records)) =~= empty_registry().saloons);
        SaloonStore::assemble(records, counter)
    }

    /// The store that the default memory holds, or a new one where it holds
    /// none. Nothing comes back where the memory gives no counter, or where
    /// what it holds is not in order.
    pub fn open() -> (store: Option<SaloonStore>)
        ensures
            store matches Some(s) ==> s.wf(),
    {
        let regions = Regions::over_default_memory();
        let records = RecordMap::attach(&regions, RECORDS_REGION);
        let counter = IdCell::attach(&regions, COUNTER_REGION, 0);
        SaloonStore::assemble(records, counter)
    }

    /// Makes a store of a record map and the counter that the memory gave,
    /// after checking every entry: it comes back exactly when there is a
    /// counter and the two are in order, and then stands for what they hold.
    pub fn assemble(records: RecordMap, counter: Option<IdCell>) -> (store: Option<SaloonStore>)
        ensures
            store is Some <==> (counter matches Some(cell) && well_stored(
                stored_records(records),
                stored_counter(cell),
            )),
            store matches Some(s) ==> s.wf() && (counter matches Some(cell) && s@ == registry_of(
                stored_records(records),
                stored_counter(cell),
            )),
    {
        let cell = match counter {
            Some(cell) => cell,
            None => { return None; },
        };
        let rows = records.entries();
        let last_id = cell.get();
        let ghost stored = stored_records(records);
        let mut i: usize = 0;
        while i < rows.len()
            invariant
                i <= rows.len(),
                stored == stored_records(records),
                counter == Some(cell),
                last_id == stored_counter(cell),
                lists_in_key_order(rows@, stored),
                forall|j: int|
                    0 <= j < i ==> {
                        &&& 1 <= (#[trigger] rows@[j]).0 <= last_id
                        &&& read_saloon(rows@[j].1@) matches Some(saloon) && saloon.id == rows@[j].0
                            && sound_saloon(saloon)
                    },
            decreases rows.len() - i,
        {
            let key = rows[i].0;
            assert(stored.contains_key(rows@[i as int].0));
            assert(stored[key] == rows@[i as int].1@);
            assert(registry_of(stored, last_id).saloons.contains_key(key));
            assert(registry_of(stored, last_id).saloons[key] == read_saloon(stored[key]).unwrap());
            if key < 1 || key > last_id {
                return None;
            }
            match decode_saloon(rows[i].1.as_slice()) {
                None => { return None; },
                Some(saloon) => {
                    if saloon.id != key || !check_saloon(&saloon) {
                        return None;
                    }
                },
            }
            i += 1;
        }
        assert forall|id: u64| #[trigger] stored.contains_key(id) implies read_saloon(stored[id]) is Some
            && 1 <= id <= last_id && decoded(stored)[id].id == id && sound_saloon(
            decoded(stored)[id],
        ) by {
            let j = choose|j: int| 0 <= j < rows@.len() && rows@[j].0 == id;
            assert(stored[rows@[j].0] == rows@[j].1@);
        }
        Some(SaloonStore { records, counter: cell })
    }

    /// The last identifier issued.
    pub fn last_id(&self) -> (id: u64)
        ensures
            id == self@.last_id,
    {
        self.counter.get()
    }

    /// Issues the next identifier: one above the last, which it then is. The
    /// first identifier issued is 1.
    pub fn next_id(&mut self) -> (id: u64)
        requires
            old(self).wf(),
            old(self)@.last_id < u64::MAX,
        ensures
            final(self).wf(),
            id == old(self)@.last_id + 1,
            final(self)@ == (Registry { last_id: id, ..old(self)@ }),
    {
        let id = self.counter.get() + 1;
        self.counter.set(id);
        id
    }

    /// Takes the saloon `id` out of the store and returns it.
    pub(crate) fn take_out(&mut self, id: u64) -> (taken: Option<Saloon>)
        requires
            old(self).wf(),
        ensures
            final(self).wf(),
            final(self)@ == (Registry { saloons: old(self)@.saloons.remove(id), ..old(self)@ }),
            match taken {
                Some(saloon) => old(self)@.saloons.contains_key(id) && saloon@ == old(self)@.saloons[id],
                None => !old(self)@.saloons.contains_key(id),
            },
    {
        proof {
            lemma_decoded_remove(stored_records(self.records), id);
        }
        match self.records.remove(id) {
            Some(bytes) => decode_saloon(bytes.as_slice()),
            None => None,
        }
    }

    /// The identifiers and records of all saloons, by ascending identifier.
    pub(crate) fn rows(&self) -> (rows: Vec<(u64, Vec<u8>)>)
        requires
            self.wf(),
        ensures
            rows@.len() == self@.listing().len(),
            forall|i: int|
                0 <= i < rows@.len() ==> read_saloon((#[trigger] rows@[i]).1@) == Some(self@.listing()[i]),
    {
        let rows = self.records.entries();
        proof {
            let stored = stored_records(self.records);
            let keys = Seq::new(rows@.len(), |i: int| rows@[i].0);
            assert(ascending(keys));
            assert forall|x: u64| keys.contains(x) <==> self@.saloons.contains_key(x) by {
                if keys.contains(x) {
                    let i = choose|i: int| 0 <= i < keys.len() && keys[i] == x;
                    assert(stored.contains_key(rows@[i].0));
                }
                if stored.contains_key(x) {
                    let i = choose|i: int| 0 <= i < rows@.len() && rows@[i].0 == x;
                    assert(keys[i] == x);
                }
            }
            lemma_keys_are_ids(self@, keys);
            assert forall|i: int| 0 <= i < rows@.len() implies read_saloon((#[trigger] rows@[i]).1@)
                == Some(self@.listing()[i]) by {
                assert(stored.contains_key(rows@[i].0));
                assert(keys[i] == rows@[i].0);
            }
        }
        rows
    }
}

/// The saloon stored under `id`, if there is one.
pub fn _get_saloon(store: &SaloonStore, id: &u64) -> (found: Option<Saloon>)
    requires
        store.wf(),
    ensures
        match found {
            Some(saloon) => store@.saloons.contains_key(*id) && saloon@ == store@.saloons[*id],
            None => !store@.saloons.contains_key(*id),
        },
{
    match store.records.get(*id) {
        Some(bytes) => decode_saloon(bytes.as_slice()),
        None => None,
    }
}

/// Stores `saloon` under its identifier, in place of what was there.
pub fn do_insert(store: &mut SaloonStore, saloon: &Saloon)
    requires
        old(store).wf(),
        sound_saloon(saloon@),
        1 <= saloon.id <= old(store)@.last_id,
    ensures
        final(store).wf(),
        final(store)@ == old(store)@.store(saloon@).registry,
{
    proof {
        lemma_decoded_insert(stored_records(store.records), saloon@);
    }
    let record = encode_saloon(saloon).unwrap();
    store.records.insert(saloon.id, record.as_slice());
}

} // verus!
