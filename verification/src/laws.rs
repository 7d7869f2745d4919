//! What holds of the registry whatever is done with it.

use crate::codec::lemma_fits_with_smaller_services;
use crate::messages::{not_found_text, not_owner_text};
use crate::model::{ErrorView, SaloonPayloadView, SaloonView, ServicePayloadView, ServiceView};
use crate::registry::{
    lemma_ids, lemma_without_service_members, lemma_without_service_size, sound_saloon, sound_service,
    with_services, without_service, Registry,
};
use crate::validate::{saloon_payload_fault, service_payload_fault};
use vstd::prelude::*;

verus! {

/// A saloon that was just created is the one that a lookup of its
/// identifier finds.
pub proof fn law_created_saloon_is_found(
    registry: Registry,
    caller: Seq<char>,
    payload: SaloonPayloadView,
    now: u64,
)
    requires
        registry.inv(),
        registry.can_create(caller, payload, now),
        saloon_payload_fault(payload) is None,
    ensures
        registry.create(caller, payload, now).outcome matches Ok(saloon) && registry.create(
            caller,
            payload,
            now,
        ).registry.get(saloon.id) == Ok::<SaloonView, ErrorView>(saloon),
{
}

/// An identifier that was never issued finds nothing.
pub proof fn law_unissued_id_is_not_found(registry: Registry, id: u64)
    requires
        registry.inv(),
        id == 0 || id > registry.last_id,
    ensures
        registry.get(id) == Err::<SaloonView, ErrorView>(ErrorView::NotFound { msg: not_found_text(id) }),
{
}

/// The identifier of a saloon that was deleted finds nothing.
pub proof fn law_deleted_id_is_not_found(registry: Registry, caller: Seq<char>, id: u64)
    requires
        registry.delete(caller, id).outcome is Ok,
    ensures
        registry.delete(caller, id).registry.get(id) == Err::<SaloonView, ErrorView>(
            ErrorView::NotFound { msg: not_found_text(id) },
        ),
{
}

/// A caller who does not own a saloon cannot change it: an update with a
/// request that holds its texts, a new service with a request that holds its
/// texts, the removal of a service and the deletion are all answered with
/// `NotAuthorized`, and the registry stays as it was.
pub proof fn law_stranger_changes_nothing(
    registry: Registry,
    caller: Seq<char>,
    id: u64,
    saloon_payload: SaloonPayloadView,
    service_payload: ServicePayloadView,
    service_name: Seq<char>,
    now: u64,
)
    requires
        registry.saloons.contains_key(id),
        registry.saloons[id].owner != caller,
        saloon_payload_fault(saloon_payload) is None,
        service_payload_fault(service_payload) is None,
    ensures
        registry.update(caller, id, saloon_payload, now) == registry.refuse(
            ErrorView::NotAuthorized { msg: not_owner_text() },
        ),
        registry.add_service(caller, id, service_payload, now) == registry.refuse(
            ErrorView::NotAuthorized { msg: not_owner_text() },
        ),
        registry.delete_service(caller, id, service_name, now) == registry.refuse(
            ErrorView::NotAuthorized { msg: not_owner_text() },
        ),
        registry.delete(caller, id) == registry.refuse(ErrorView::NotAuthorized { msg: not_owner_text() }),
        registry.refuse(ErrorView::NotAuthorized { msg: not_owner_text() }).registry.get(id)
            == registry.get(id),
{
}

/// A request with a blank field is answered with `BadRequest` before the
/// store is looked at, and changes nothing.
pub proof fn law_bad_request_changes_nothing(
    registry: Registry,
    caller: Seq<char>,
    id: u64,
    saloon_payload: SaloonPayloadView,
    service_payload: ServicePayloadView,
    now: u64,
)
    ensures
        saloon_payload_fault(saloon_payload) matches Some(msg) ==> {
            &&& registry.create(caller, saloon_payload, now) == registry.refuse(ErrorView::BadRequest { msg })
            &&& registry.update(caller, id, saloon_payload, now) == registry.refuse(
                ErrorView::BadRequest { msg },
            )
        },
        service_payload_fault(service_payload) matches Some(msg) ==> registry.add_service(
            caller,
            id,
            service_payload,
            now,
        ) == registry.refuse(ErrorView::BadRequest { msg }),
{
}

/// A creation that is refused issues no identifier: the next creation that
/// succeeds gets the identifier that the refused one would have had.
pub proof fn law_refused_creation_issues_no_id(
    registry: Registry,
    caller: Seq<char>,
    refused: SaloonPayloadView,
    accepted: SaloonPayloadView,
    now: u64,
    later: u64,
)
    requires
        saloon_payload_fault(refused) is Some,
        saloon_payload_fault(accepted) is None,
        registry.last_id < u64::MAX,
    ensures
        registry.create(caller, refused, now).outcome is Err,
        registry.create(caller, refused, now).registry.create(caller, accepted, later).outcome matches Ok(
            saloon,
        ) && saloon.id == registry.last_id + 1,
{
}

/// Identifiers are issued in sequence and never twice: a creation that
/// succeeds uses an identifier that no saloon has, one above the last, and
/// no operation lowers the last identifier issued.
pub proof fn law_ids_are_not_reused(
    registry: Registry,
    caller: Seq<char>,
    id: u64,
    saloon_payload: SaloonPayloadView,
    service_payload: ServicePayloadView,
    service_name: Seq<char>,
    now: u64,
)
    requires
        registry.inv(),
        registry.last_id < u64::MAX,
    ensures
        registry.create(caller, saloon_payload, now).outcome matches Ok(saloon) ==> {
            &&& saloon.id == registry.last_id + 1
            &&& !registry.saloons.contains_key(saloon.id)
            &&& registry.create(caller, saloon_payload, now).registry.last_id == saloon.id
        },
        registry.update(caller, id, saloon_payload, now).registry.last_id == registry.last_id,
        registry.add_service(caller, id, service_payload, now).registry.last_id == registry.last_id,
        registry.delete_service(caller, id, service_name, now).registry.last_id == registry.last_id,
        registry.delete(caller, id).registry.last_id == registry.last_id,
{
}

/// A saloon keeps its identifier, its owner and its time of creation through
/// every change that its owner makes.
pub proof fn law_changes_keep_identity(
    registry: Registry,
    caller: Seq<char>,
    id: u64,
    saloon_payload: SaloonPayloadView,
    service_payload: ServicePayloadView,
    service_name: Seq<char>,
    now: u64,
)
    requires
        registry.inv(),
    ensures
        registry.update(caller, id, saloon_payload, now).outcome matches Ok(saloon) ==> same_identity(
            registry.saloons[id],
            saloon,
        ),
        registry.add_service(caller, id, service_payload, now).outcome matches Ok(saloon)
            ==> same_identity(registry.saloons[id], saloon),
        registry.delete_service(caller, id, service_name, now).outcome matches Ok(saloon)
            ==> same_identity(registry.saloons[id], saloon),
{
}

/// Two states of one saloon: same identifier, owner and time of creation.
pub open spec fn same_identity(before: SaloonView, after: SaloonView) -> bool {
    &&& after.id == before.id
    &&& after.owner == before.owner
    &&& after.created_at == before.created_at
}

/// Every operation that can be carried out keeps the registry in order.
pub proof fn law_operations_keep_order(
    registry: Registry,
    caller: Seq<char>,
    id: u64,
    saloon_payload: SaloonPayloadView,
    service_payload: ServicePayloadView,
    service_name: Seq<char>,
    now: u64,
)
    requires
        registry.inv(),
    ensures
        registry.can_create(caller, saloon_payload, now) ==> registry.create(
            caller,
            saloon_payload,
            now,
        ).registry.inv(),
        registry.can_update(caller, id, saloon_payload, now) ==> registry.update(
            caller,
            id,
            saloon_payload,
            now,
        ).registry.inv(),
        registry.can_add_service(caller, id, service_payload, now) ==> registry.add_service(
            caller,
            id,
            service_payload,
            now,
        ).registry.inv(),
        registry.delete_service(caller, id, service_name, now).registry.inv(),
        registry.delete(caller, id).registry.inv(),
{
    if registry.saloons.contains_key(id) {
        let old = registry.saloons[id];
        let kept = without_service(old.saloonservices, service_name);
        lemma_without_service_members(old.saloonservices, service_name);
        lemma_without_service_size(old.saloonservices, service_name);
        lemma_fits_with_smaller_services(old, kept, Some(now));
        assert forall|i: int| 0 <= i < kept.len() implies sound_service(#[trigger] kept[i]) by {
            let j = choose|j: int| 0 <= j < old.saloonservices.len() && old.saloonservices[j] == kept[i];
            assert(sound_service(old.saloonservices[j]));
        }
        assert(sound_saloon(with_services(old, kept, now)));
    }
}

/// The places in `services` of those that are not called `service_name`,
/// from the first to the last.
pub open spec fn kept_places(services: Seq<ServiceView>, service_name: Seq<char>) -> Seq<int>
    decreases services.len(),
{
    if services.len() == 0 {
        Seq::empty()
    } else {
        let rest = kept_places(services.subrange(1, services.len() as int), service_name);
        let moved = Seq::new(rest.len(), |k: int| rest[k] + 1);
        if services[0].service_name == service_name {
            moved
        } else {
            seq![0int] + moved
        }
    }
}

/// Taking out the services of one name keeps exactly the services of every
/// other name, each once, in the order they had.
pub proof fn law_without_service_keeps_the_others(services: Seq<ServiceView>, service_name: Seq<char>)
    ensures
        kept_places(services, service_name).len() == without_service(services, service_name).len(),
        forall|k: int|
            0 <= k < kept_places(services, service_name).len() ==> {
                let place = #[trigger] kept_places(services, service_name)[k];
                &&& 0 <= place < services.len()
                &&& services[place].service_name != service_name
                &&& without_service(services, service_name)[k] == services[place]
            },
        forall|k: int, l: int|
            0 <= k < l < kept_places(services, service_name).len() ==> kept_places(
                services,
                service_name,
            )[k] < kept_places(services, service_name)[l],
        forall|j: int|
            0 <= j < services.len() && services[j].service_name != service_name ==> kept_places(
                services,
                service_name,
            ).contains(j),
    decreases services.len(),
{
    if services.len() > 0 {
        let tail = services.subrange(1, services.len() as int);
        let rest = kept_places(tail, service_name);
        let moved = Seq::new(rest.len(), |k: int| rest[k] + 1);
        let places = kept_places(services, service_name);
        let kept = without_service(services, service_name);
        law_without_service_keeps_the_others(tail, service_name);
        assert forall|k: int| 0 <= k < places.len() implies {
            let place = #[trigger] places[k];
            &&& 0 <= place < services.len()
            &&& services[place].service_name != service_name
            &&& kept[k] == services[place]
        } by {
            if services[0].service_name == service_name {
                assert(places[k] == rest[k] + 1);
                assert(tail[rest[k]] == services[rest[k] + 1]);
            } else if k > 0 {
                assert(places[k] == rest[k - 1] + 1);
                assert(tail[rest[k - 1]] == services[rest[k - 1] + 1]);
            }
        }
        assert forall|k: int, l: int| 0 <= k < l < places.len() implies places[k] < places[l] by {
            if services[0].service_name == service_name {
                assert(rest[k] < rest[l]);
            } else if k > 0 {
                assert(rest[k - 1] < rest[l - 1]);
            } else {
                assert(places[l] == rest[l - 1] + 1);
            }
        }
        assert forall|j: int|
            0 <= j < services.len() && services[j].service_name != service_name implies places.contains(
            j,
        ) by {
            if j == 0 {
                assert(places[0] == 0);
            } else {
                assert(tail[j - 1] == services[j]);
                assert(rest.contains(j - 1));
                let k = choose|k: int| 0 <= k < rest.len() && rest[k] == j - 1;
                if services[0].service_name == service_name {
                    assert(places[k] == j);
                } else {
                    assert(places[k + 1] == j);
                }
            }
        }
    }
}

/// After the owner takes the services of one name out of a saloon, a lookup
/// shows the saloon with the others, and the answer is `NotFound` with the
/// registry unchanged where the saloon has no service of that name.
pub proof fn law_delete_service_shows_the_others(
    registry: Registry,
    caller: Seq<char>,
    id: u64,
    service_name: Seq<char>,
    now: u64,
)
    requires
        registry.inv(),
        registry.saloons.contains_key(id),
        registry.saloons[id].owner == caller,
    ensures
        ({
            let step = registry.delete_service(caller, id, service_name, now);
            let services = registry.saloons[id].saloonservices;
            let named = exists|j: int| 0 <= j < services.len() && services[j].service_name == service_name;
            if named {
                &&& step.outcome == Ok::<SaloonView, ErrorView>(
                    with_services(registry.saloons[id], without_service(services, service_name), now),
                )
                &&& step.registry.get(id) == step.outcome
            } else {
                &&& step.outcome is Err
                &&& step.registry == registry
            }
        }),
{
    let services = registry.saloons[id].saloonservices;
    let kept = without_service(services, service_name);
    let places = kept_places(services, service_name);
    law_without_service_keeps_the_others(services, service_name);
    lemma_without_service_members(services, service_name);
    if exists|j: int| 0 <= j < services.len() && services[j].service_name == service_name {
        let j = choose|j: int| 0 <= j < services.len() && services[j].service_name == service_name;
        if kept.len() == services.len() {
            lemma_places_fill(places, services.len() as int);
            assert(places[j] == j);
        }
    } else {
        lemma_places_count(services, service_name);
    }
}

proof fn lemma_places_fill(places: Seq<int>, n: int)
    requires
        places.len() == n,
        forall|k: int| 0 <= k < places.len() ==> 0 <= #[trigger] places[k] < n,
        forall|k: int, l: int| 0 <= k < l < places.len() ==> places[k] < places[l],
    ensures
        forall|k: int| 0 <= k < places.len() ==> #[trigger] places[k] == k,
    decreases n,
{
    if n > 0 {
        let front = places.subrange(0, n - 1);
        assert forall|k: int| 0 <= k < front.len() implies 0 <= #[trigger] front[k] < n - 1 by {
            assert(places[k] < places[n - 1]);
        }
        assert forall|k: int, l: int| 0 <= k < l < front.len() implies front[k] < front[l] by {
            assert(places[k] < places[l]);
        }
        lemma_places_fill(front, n - 1);
        assert forall|k: int| 0 <= k < places.len() implies #[trigger] places[k] == k by {
            if k < n - 1 {
                assert(front[k] == k);
            } else if n > 1 {
                assert(front[n - 2] == n - 2);
                assert(places[n - 2] < places[n - 1]);
            }
        }
    }
}

proof fn lemma_places_count(services: Seq<ServiceView>, service_name: Seq<char>)
    requires
        forall|j: int| 0 <= j < services.len() ==> services[j].service_name != service_name,
    ensures
        without_service(services, service_name).len() == services.len(),
    decreases services.len(),
{
    if services.len() > 0 {
        let tail = services.subrange(1, services.len() as int);
        assert forall|j: int| 0 <= j < tail.len() implies tail[j].service_name != service_name by {
            assert(tail[j] == services[j + 1]);
        }
        lemma_places_count(tail, service_name);
    }
}

/// A page holds `min(limit, max(0, N - offset))` saloons, where `N` is the
/// number of saloons stored; they are those from place `offset` of the
/// listing on, so their identifiers ascend.
pub proof fn law_page(registry: Registry, offset: u64, limit: u64)
    requires
        registry.inv(),
    ensures
        registry.saloons.dom().finite(),
        registry.listing().len() == registry.saloons.dom().len(),
        ({
            let stored = registry.saloons.dom().len() as int;
            let left = if stored - offset > 0 { stored - offset } else { 0 };
            registry.page(offset, limit).len() == if limit <= left { limit as int } else { left }
        }),
        forall|i: int|
            0 <= i < registry.page(offset, limit).len() ==> #[trigger] registry.page(offset, limit)[i]
                == registry.listing()[offset + i],
        forall|i: int, j: int|
            0 <= i < j < registry.page(offset, limit).len() ==> registry.page(offset, limit)[i].id
                < registry.page(offset, limit)[j].id,
        offset >= registry.saloons.dom().len() ==> registry.page(offset, limit).len() == 0,
{
    lemma_ids(registry);
    lemma_listing(registry);
}

/// The listing holds every stored saloon once, by ascending identifier.
pub proof fn lemma_listing(registry: Registry)
    requires
        registry.inv(),
    ensures
        registry.listing().len() == registry.ids().len(),
        forall|i: int|
            0 <= i < registry.listing().len() ==> {
                &&& registry.saloons.contains_key(#[trigger] registry.ids()[i])
                &&& registry.listing()[i] == registry.saloons[registry.ids()[i]]
                &&& registry.listing()[i].id == registry.ids()[i]
            },
        forall|i: int, j: int|
            0 <= i < j < registry.listing().len() ==> registry.listing()[i].id < registry.listing()[j].id,
        forall|id: u64|
            registry.saloons.contains_key(id) ==> exists|i: int|
                0 <= i < registry.listing().len() && registry.listing()[i] == registry.saloons[id],
{
    lemma_ids(registry);
    let ids = registry.ids();
    assert forall|i: int| 0 <= i < registry.listing().len() implies {
        &&& registry.saloons.contains_key(#[trigger] ids[i])
        &&& registry.listing()[i] == registry.saloons[ids[i]]
        &&& registry.listing()[i].id == ids[i]
    } by {
        assert(ids.contains(ids[i]));
    }
    assert forall|i: int, j: int| 0 <= i < j < registry.listing().len() implies registry.listing()[i].id
        < registry.listing()[j].id by {
        assert(ids.contains(ids[i]));
        assert(ids.contains(ids[j]));
        assert(ids[i] < ids[j]);
    }
    assert forall|id: u64| registry.saloons.contains_key(id) implies exists|i: int|
        0 <= i < registry.listing().len() && registry.listing()[i] == registry.saloons[id] by {
        assert(ids.contains(id));
        let i = choose|i: int| 0 <= i < ids.len() && ids[i] == id;
        assert(registry.listing()[i] == registry.saloons[id]);
    }
}

} // verus!
