//! The operations on the registry: queries, and the mutations that only the
//! owner of a saloon may make.

use crate::codec::{decode_saloon, encode_saloon, lemma_fits_with_smaller_services, read_saloon};
use crate::messages::{cannot_delete, missing, not_found, not_owner, service_missing};
use crate::model::{
    outcome_view, saloon_views, service_views, Error, Saloon, SaloonPayload, SaloonService, SaloonView,
    ServicePayload,
};
use crate::registry::{
    lemma_without_service_members, lemma_without_service_size, new_saloon, new_service, sound_service,
    updated_saloon, with_location, with_name, with_services, without_service, Step,
};
use crate::store::{_get_saloon, do_insert, SaloonStore};
use crate::validate::{validate_saloon_payload, validate_service_payload};
use vstd::prelude::*;

verus! {

/// `outcome` and the store after the call are what `step` says.
pub open spec fn carried_out(step: Step, store: SaloonStore, outcome: Result<Saloon, Error>) -> bool {
    &&& store@ == step.registry
    &&& outcome_view(outcome) == step.outcome
}

/// `attempt` is the outcome of a step that `possible` allows, and otherwise
/// nothing, with the store as it was.
pub open spec fn attempted(
    possible: bool,
    step: Step,
    before: SaloonStore,
    after: SaloonStore,
    attempt: Option<Result<Saloon, Error>>,
) -> bool {
    match attempt {
        Some(outcome) => possible && carried_out(step, after, outcome),
        None => !possible && after@ == before@,
    }
}

/// The saloon that a stored row stands for.
pub open spec fn read_row(row: (u64, Vec<u8>)) -> Option<SaloonView> {
    read_saloon(row.1@)
}

fn same_text(a: &String, b: &str) -> (same: bool)
    ensures
        same == (a@ == b@),
{
    let other = b.to_owned();
    *a == other
}

/// At most `limit` saloons by ascending identifier, after the first `offset`.
pub fn get_saloons(store: &SaloonStore, offset: u64, limit: u64) -> (page: Vec<Saloon>)
    requires
        store.wf(),
    ensures
        saloon_views(page@) == store@.page(offset, limit),
{
    let rows = store.rows();
    let n = rows.len();
    let start: usize = if offset >= n as u64 { n } else { offset as usize };
    let end: usize = if limit >= (n - start) as u64 { n } else { start + limit as usize };
    let mut page: Vec<Saloon> = Vec::new();
    let mut i: usize = start;
    while i < end
        invariant
            start <= i <= end <= n,
            n == rows@.len(),
            rows@.len() == store@.listing().len(),
            forall|j: int|
                0 <= j < rows@.len() ==> read_row(#[trigger] rows@[j]) == Some(store@.listing()[j]),
            page@.len() == i - start,
            forall|j: int| 0 <= j < page@.len() ==> (#[trigger] page@[j])@ == store@.listing()[start + j],
        decreases end - i,
    {
        assert(read_row(rows@[i as int]) is Some);
        let saloon = decode_saloon(rows[i].1.as_slice()).unwrap();
        page.push(saloon);
        i += 1;
    }
    assert(saloon_views(page@) =~= store@.page(offset, limit));
    page
}

/// The saloon `id`, or `NotFound`.
pub fn get_saloon(store: &SaloonStore, id: u64) -> (outcome: Result<Saloon, Error>)
    requires
        store.wf(),
    ensures
        outcome_view(outcome) == store@.get(id),
{
    match _get_saloon(store, &id) {
        Some(saloon) => Ok(saloon),
        None => Err(not_found(id)),
    }
}

/// Creates a saloon for `caller` from `payload` at time `now`: it gets the
/// next identifier and no services. A request with a blank field is answered
/// with `BadRequest`, and then no identifier is issued.
pub fn add_saloon(
    store: &mut SaloonStore,
    caller: &str,
    payload: SaloonPayload,
    now: u64,
) -> (outcome: Result<Saloon, Error>)
    requires
        old(store).wf(),
        old(store)@.can_create(caller@, payload@, now),
    ensures
        final(store).wf(),
        carried_out(old(store)@.create(caller@, payload@, now), *final(store), outcome),
{
    let ghost request = payload@;
    match validate_saloon_payload(&payload) {
        Err(error) => { return Err(error); },
        Ok(_) => {},
    }
    let id = store.next_id();
    let saloon = Saloon {
        owner: caller.to_owned(),
        id,
        name: payload.name,
        location: payload.location,
        saloon_url: payload.saloon_url,
        saloonservices: Vec::new(),
        created_at: now,
        updated_at: None,
    };
    assert(saloon@.saloonservices =~= Seq::empty());
    assert(saloon@ == new_saloon(caller@, id, request, now));
    do_insert(store, &saloon);
    Ok(saloon)
}

/// `add_saloon` where it can be carried out, and nothing otherwise.
pub fn try_add_saloon(
    store: &mut SaloonStore,
    caller: &str,
    payload: SaloonPayload,
    now: u64,
) -> (attempt: Option<Result<Saloon, Error>>)
    requires
        old(store).wf(),
    ensures
        final(store).wf(),
        attempted(
            old(store)@.can_create(caller@, payload@, now),
            old(store)@.create(caller@, payload@, now),
            *old(store),
            *final(store),
            attempt,
        ),
{
    if validate_saloon_payload(&payload).is_ok() {
        if caller.is_empty() || store.last_id() == u64::MAX {
            return None;
        }
        let planned = Saloon {
            owner: caller.to_owned(),
            id: store.last_id() + 1,
            name: payload.name.clone(),
            location: payload.location.clone(),
            saloon_url: payload.saloon_url.clone(),
            saloonservices: Vec::new(),
            created_at: now,
            updated_at: None,
        };
        assert(planned@.saloonservices =~= Seq::empty());
        assert(planned@ == new_saloon(caller@, old(store)@.next_id(), payload@, now));
        if encode_saloon(&planned).is_none() {
            return None;
        }
    }
    Some(add_saloon(store, caller, payload, now))
}

/// Gives the saloon `id` the texts of `payload`, for its owner.
pub fn update_saloon(
    store: &mut SaloonStore,
    caller: &str,
    id: u64,
    payload: SaloonPayload,
    now: u64,
) -> (outcome: Result<Saloon, Error>)
    requires
        old(store).wf(),
        old(store)@.can_update(caller@, id, payload@, now),
    ensures
        final(store).wf(),
        carried_out(old(store)@.update(caller@, id, payload@, now), *final(store), outcome),
{
    let ghost request = payload@;
    match validate_saloon_payload(&payload) {
        Err(error) => { return Err(error); },
        Ok(_) => {},
    }
    let mut saloon = match _get_saloon(store, &id) {
        Some(saloon) => saloon,
        None => { return Err(missing(id)); },
    };
    if !same_text(&saloon.owner, caller) {
        return Err(not_owner());
    }
    proof {
        store.lemma_wf();
    }
    saloon.name = payload.name;
    saloon.location = payload.location;
    saloon.saloon_url = payload.saloon_url;
    saloon.updated_at = Some(now);
    assert(saloon@ == updated_saloon(old(store)@.saloons[id], request, now));
    do_insert(store, &saloon);
    Ok(saloon)
}

/// `update_saloon` where it can be carried out, and nothing otherwise.
pub fn try_update_saloon(
    store: &mut SaloonStore,
    caller: &str,
    id: u64,
    payload: SaloonPayload,
    now: u64,
) -> (attempt: Option<Result<Saloon, Error>>)
    requires
        old(store).wf(),
    ensures
        final(store).wf(),
        attempted(
            old(store)@.can_update(caller@, id, payload@, now),
            old(store)@.update(caller@, id, payload@, now),
            *old(store),
            *final(store),
            attempt,
        ),
{
    if validate_saloon_payload(&payload).is_ok() {
        match _get_saloon(store, &id) {
            Some(mut planned) => {
                if same_text(&planned.owner, caller) {
                    planned.name = payload.name.clone();
                    planned.location = payload.location.clone();
                    planned.saloon_url = payload.saloon_url.clone();
                    planned.updated_at = Some(now);
                    assert(planned@ == updated_saloon(old(store)@.saloons[id], payload@, now));
                    if encode_saloon(&planned).is_none() {
                        return None;
                    }
                }
            },
            None => {},
        }
    }
    Some(update_saloon(store, caller, id, payload, now))
}

/// Appends a service made from `payload` at time `now` to the saloon `id`,
/// for its owner.
pub fn add_services_saloon(
    store: &mut SaloonStore,
    caller: &str,
    id: u64,
    payload: ServicePayload,
    now: u64,
) -> (outcome: Result<Saloon, Error>)
    requires
        old(store).wf(),
        old(store)@.can_add_service(caller@, id, payload@, now),
    ensures
        final(store).wf(),
        carried_out(old(store)@.add_service(caller@, id, payload@, now), *final(store), outcome),
{
    let ghost request = payload@;
    match validate_service_payload(&payload) {
        Err(error) => { return Err(error); },
        Ok(_) => {},
    }
    let mut saloon = match _get_saloon(store, &id) {
        Some(saloon) => saloon,
        None => { return Err(missing(id)); },
    };
    if !same_text(&saloon.owner, caller) {
        return Err(not_owner());
    }
    proof {
        store.lemma_wf();
    }
    let service = SaloonService {
        service_name: payload.service_name,
        service_description: payload.service_description,
        created_at: now,
        updated_at: None,
    };
    let ghost before = saloon@;
    saloon.saloonservices.push(service);
    saloon.updated_at = Some(now);
    assert(saloon@.saloonservices =~= before.saloonservices.push(new_service(request, now)));
    assert(saloon@ == old(store)@.extended(id, request, now));
    do_insert(store, &saloon);
    Ok(saloon)
}

/// `add_services_saloon` where it can be carried out, and nothing otherwise.
pub fn try_add_services_saloon(
    store: &mut SaloonStore,
    caller: &str,
    id: u64,
    payload: ServicePayload,
    now: u64,
) -> (attempt: Option<Result<Saloon, Error>>)
    requires
        old(store).wf(),
    ensures
        final(store).wf(),
        attempted(
            old(store)@.can_add_service(caller@, id, payload@, now),
            old(store)@.add_service(caller@, id, payload@, now),
            *old(store),
            *final(store),
            attempt,
        ),
{
    if validate_service_payload(&payload).is_ok() {
        match _get_saloon(store, &id) {
            Some(mut planned) => {
                if same_text(&planned.owner, caller) {
                    let service = SaloonService {
                        service_name: payload.service_name.clone(),
                        service_description: payload.service_description.clone(),
                        created_at: now,
                        updated_at: None,
                    };
                    let ghost before = planned@;
                    planned.saloonservices.push(service);
                    planned.updated_at = Some(now);
                    assert(planned@.saloonservices =~= before.saloonservices.push(
                        new_service(payload@, now),
                    ));
                    assert(planned@ == old(store)@.extended(id, payload@, now));
                    if encode_saloon(&planned).is_none() {
                        return None;
                    }
                }
            },
            None => {},
        }
    }
    Some(add_services_saloon(store, caller, id, payload, now))
}

/// The services of `services` that are not called `service_name`, in their
/// order.
fn services_without(services: &Vec<SaloonService>, service_name: &str) -> (kept: Vec<SaloonService>)
    ensures
        service_views(kept@) == without_service(service_views(services@), service_name@),
{
    let ghost all = service_views(services@);
    let n = services.len();
    let mut kept: Vec<SaloonService> = Vec::new();
    let mut i: usize = 0;
    assert(all.subrange(0, n as int) =~= all);
    assert(service_views(kept@) =~= Seq::empty());
    while i < n
        invariant
            i <= n,
            n == services@.len(),
            all == service_views(services@),
            service_views(kept@) + without_service(all.subrange(i as int, n as int), service_name@)
                == without_service(all, service_name@),
        decreases n - i,
    {
        let ghost rest = all.subrange(i as int, n as int);
        let ghost before = service_views(kept@);
        assert(rest.subrange(1, rest.len() as int) =~= all.subrange(i + 1, n as int));
        assert(rest[0] == services@[i as int]@);
        if !same_text(&services[i].service_name, service_name) {
            kept.push(services[i].clone());
            assert(service_views(kept@) =~= before + seq![rest[0]]);
            assert(service_views(kept@) + without_service(all.subrange(i + 1, n as int), service_name@)
                =~= before + without_service(rest, service_name@));
        }
        i += 1;
    }
    assert(service_views(kept@) =~= without_service(all, service_name@));
    kept
}

/// Takes every service called `service_name` out of the saloon `saloon_id`,
/// for its owner. Where the saloon has none of that name, nothing changes and
/// the answer is `NotFound`.
pub fn delete_service_saloon(
    store: &mut SaloonStore,
    caller: &str,
    saloon_id: u64,
    service_name: String,
    now: u64,
) -> (outcome: Result<Saloon, Error>)
    requires
        old(store).wf(),
    ensures
        final(store).wf(),
        carried_out(
            old(store)@.delete_service(caller@, saloon_id, service_name@, now),
            *final(store),
            outcome,
        ),
{
    let mut saloon = match _get_saloon(store, &saloon_id) {
        Some(saloon) => saloon,
        None => { return Err(missing(saloon_id)); },
    };
    if !same_text(&saloon.owner, caller) {
        return Err(not_owner());
    }
    let ghost before = saloon@;
    let initial_length = saloon.saloonservices.len();
    let kept = services_without(&saloon.saloonservices, service_name.as_str());
    if kept.len() == initial_length {
        return Err(service_missing(service_name.as_str(), saloon_id));
    }
    saloon.saloonservices = kept;
    saloon.updated_at = Some(now);
    proof {
        store.lemma_wf();
        lemma_without_service_members(before.saloonservices, service_name@);
        lemma_without_service_size(before.saloonservices, service_name@);
        lemma_fits_with_smaller_services(before, saloon@.saloonservices, Some(now));
        assert(saloon@ == with_services(before, without_service(before.saloonservices, service_name@), now));
        assert forall|i: int| 0 <= i < saloon@.saloonservices.len() implies sound_service(
            #[trigger] saloon@.saloonservices[i],
        ) by {
            let j = choose|j: int|
                0 <= j < before.saloonservices.len() && before.saloonservices[j]
                    == saloon@.saloonservices[i];
            assert(sound_service(before.saloonservices[j]));
        }
    }
    do_insert(store, &saloon);
    Ok(saloon)
}

/// Takes the saloon `id` out of the store, for its owner. For another
/// caller the saloon is put back as it was.
pub fn delete_saloon(store: &mut SaloonStore, caller: &str, id: u64) -> (outcome: Result<Saloon, Error>)
    requires
        old(store).wf(),
    ensures
        final(store).wf(),
        carried_out(old(store)@.delete(caller@, id), *final(store), outcome),
{
    proof {
        store.lemma_wf();
    }
    let saloon = match store.take_out(id) {
        Some(saloon) => saloon,
        None => {
            assert(store@.saloons =~= old(store)@.saloons);
            return Err(cannot_delete(id));
        },
    };
    if !same_text(&saloon.owner, caller) {
        do_insert(store, &saloon);
        assert(store@.saloons =~= old(store)@.saloons);
        return Err(not_owner());
    }
    Ok(saloon)
}

/// The saloons called exactly `name`, by ascending identifier.
pub fn search_by_name(store: &SaloonStore, name: String) -> (found: Vec<Saloon>)
    requires
        store.wf(),
    ensures
        saloon_views(found@) == store@.named(name@),
{
    let rows = store.rows();
    let ghost all = store@.listing();
    let n = rows.len();
    let mut found: Vec<Saloon> = Vec::new();
    let mut i: usize = 0;
    assert(all.subrange(0, n as int) =~= all);
    assert(saloon_views(found@) =~= Seq::empty());
    while i < n
        invariant
            i <= n,
            n == rows@.len(),
            all == store@.listing(),
            rows@.len() == all.len(),
            forall|j: int| 0 <= j < rows@.len() ==> read_row(#[trigger] rows@[j]) == Some(all[j]),
            saloon_views(found@) + with_name(all.subrange(i as int, n as int), name@) == with_name(
                all,
                name@,
            ),
        decreases n - i,
    {
        let ghost rest = all.subrange(i as int, n as int);
        let ghost before = saloon_views(found@);
        assert(rest.subrange(1, rest.len() as int) =~= all.subrange(i + 1, n as int));
        assert(read_row(rows@[i as int]) is Some);
        let saloon = decode_saloon(rows[i].1.as_slice()).unwrap();
        if saloon.name == name {
            found.push(saloon);
            assert(saloon_views(found@) =~= before + seq![rest[0]]);
            assert(saloon_views(found@) + with_name(all.subrange(i + 1, n as int), name@) =~= before
                + with_name(rest, name@));
        }
        i += 1;
    }
    assert(saloon_views(found@) =~= with_name(all, name@));
    found
}

/// The saloons at exactly `location`, by ascending identifier.
pub fn search_by_location(store: &SaloonStore, location: String) -> (found: Vec<Saloon>)
    requires
        store.wf(),
    ensures
        saloon_views(found@) == store@.located(location@),
{
    let rows = store.rows();
    let ghost all = store@.listing();
    let n = rows.len();
    let mut found: Vec<Saloon> = Vec::new();
    let mut i: usize = 0;
    assert(all.subrange(0, n as int) =~= all);
    assert(saloon_views(found@) =~= Seq::empty());
    while i < n
        invariant
            i <= n,
            n == rows@.len(),
            all == store@.listing(),
            rows@.len() == all.len(),
            forall|j: int| 0 <= j < rows@.len() ==> read_row(#[trigger] rows@[j]) == Some(all[j]),
            saloon_views(found@) + with_location(all.subrange(i as int, n as int), location@)
                == with_location(all, location@),
        decreases n - i,
    {
        let ghost rest = all.subrange(i as int, n as int);
        let ghost before = saloon_views(found@);
        assert(rest.subrange(1, rest.len() as int) =~= all.subrange(i + 1, n as int));
        assert(read_row(rows@[i as int]) is Some);
        let saloon = decode_saloon(rows[i].1.as_slice()).unwrap();
        if saloon.location == location {
            found.push(saloon);
            assert(saloon_views(found@) =~= before + seq![rest[0]]);
            assert(saloon_views(found@) + with_location(all.subrange(i + 1, n as int), location@)
                =~= before + with_location(rest, location@));
        }
        i += 1;
    }
    assert(saloon_views(found@) =~= with_location(all, location@));
    found
}

} // verus!
