//! The registry as a mathematical object: what it holds, what every
//! operation makes of it, and what it answers.

use crate::codec::{fits, services_bytes};
use crate::messages::{cannot_delete_text, missing_text, not_found_text, not_owner_text, service_missing_text};
use crate::model::{ErrorView, SaloonPayloadView, SaloonView, ServicePayloadView, ServiceView};
use crate::validate::{is_blank, saloon_payload_fault, service_payload_fault};
use vstd::prelude::*;

verus! {

/// The saloons by identifier, and the last identifier issued.
pub struct Registry {
    pub saloons: Map<u64, SaloonView>,
    pub last_id: u64,
}

/// What an operation leaves behind and what it answers.
pub struct Step {
    pub registry: Registry,
    pub outcome: Result<SaloonView, ErrorView>,
}

/// What holds of every stored service: its texts hold something.
pub open spec fn sound_service(service: ServiceView) -> bool {
    &&& !is_blank(service.service_name)
    &&& !is_blank(service.service_description)
}

/// What holds of every stored saloon: it has an owner, its texts hold
/// something, and its record fits the store.
pub open spec fn sound_saloon(saloon: SaloonView) -> bool {
    &&& saloon.owner.len() > 0
    &&& !is_blank(saloon.name)
    &&& !is_blank(saloon.location)
    &&& !is_blank(saloon.saloon_url)
    &&& forall|i: int|
        0 <= i < saloon.saloonservices.len() ==> sound_service(#[trigger] saloon.saloonservices[i])
    &&& fits(saloon)
}

/// The saloon that `caller` creates from `payload` at time `now`.
pub open spec fn new_saloon(caller: Seq<char>, id: u64, payload: SaloonPayloadView, now: u64) -> SaloonView {
    SaloonView {
        owner: caller,
        id,
        name: payload.name,
        location: payload.location,
        saloon_url: payload.saloon_url,
        saloonservices: Seq::empty(),
        created_at: now,
        updated_at: None,
    }
}

/// `saloon` with the texts of `payload`, changed at time `now`.
pub open spec fn updated_saloon(saloon: SaloonView, payload: SaloonPayloadView, now: u64) -> SaloonView {
    SaloonView {
        name: payload.name,
        location: payload.location,
        saloon_url: payload.saloon_url,
        updated_at: Some(now),
        ..saloon
    }
}

/// The service made from `payload` at time `now`.
pub open spec fn new_service(payload: ServicePayloadView, now: u64) -> ServiceView {
    ServiceView {
        service_name: payload.service_name,
        service_description: payload.service_description,
        created_at: now,
        updated_at: None,
    }
}

/// `saloon` with `services` in place of its own, changed at time `now`.
pub open spec fn with_services(saloon: SaloonView, services: Seq<ServiceView>, now: u64) -> SaloonView {
    SaloonView { saloonservices: services, updated_at: Some(now), ..saloon }
}

/// The services among `services` that are not called `service_name`, in
/// their order.
pub open spec fn without_service(services: Seq<ServiceView>, service_name: Seq<char>) -> Seq<ServiceView>
    decreases services.len(),
{
    if services.len() == 0 {
        Seq::empty()
    } else {
        let rest = without_service(services.subrange(1, services.len() as int), service_name);
        if services[0].service_name == service_name {
            rest
        } else {
            seq![services[0]] + rest
        }
    }
}

/// The saloons among `saloons` that are called `name`, in their order.
pub open spec fn with_name(saloons: Seq<SaloonView>, name: Seq<char>) -> Seq<SaloonView>
    decreases saloons.len(),
{
    if saloons.len() == 0 {
        Seq::empty()
    } else {
        let rest = with_name(saloons.subrange(1, saloons.len() as int), name);
        if saloons[0].name == name {
            seq![saloons[0]] + rest
        } else {
            rest
        }
    }
}

/// The saloons among `saloons` that are at `location`, in their order.
pub open spec fn with_location(saloons: Seq<SaloonView>, location: Seq<char>) -> Seq<SaloonView>
    decreases saloons.len(),
{
    if saloons.len() == 0 {
        Seq::empty()
    } else {
        let rest = with_location(saloons.subrange(1, saloons.len() as int), location);
        if saloons[0].location == location {
            seq![saloons[0]] + rest
        } else {
            rest
        }
    }
}

/// Each identifier is less than the next.
pub open spec fn ascending(ids: Seq<u64>) -> bool {
    forall|i: int, j: int| 0 <= i < j < ids.len() ==> ids[i] < ids[j]
}

/// The members of `dom` below `bound`, from the least to the greatest.
pub open spec fn ids_below(dom: Set<u64>, bound: nat) -> Seq<u64>
    decreases bound,
{
    if bound == 0 {
        Seq::empty()
    } else {
        let id = (bound - 1) as u64;
        let rest = ids_below(dom, (bound - 1) as nat);
        if dom.contains(id) {
            rest.push(id)
        } else {
            rest
        }
    }
}

impl Registry {
    /// Every saloon stands under its own identifier, which was issued, and
    /// is sound.
    pub open spec fn inv(self) -> bool {
        forall|id: u64| #[trigger]
            self.saloons.contains_key(id) ==> {
                &&& 1 <= id <= self.last_id
                &&& self.saloons[id].id == id
                &&& sound_saloon(self.saloons[id])
            }
    }

    /// The step that changes nothing and answers with `error`.
    pub open spec fn refuse(self, error: ErrorView) -> Step {
        Step { registry: self, outcome: Err(error) }
    }

    /// The step that puts `saloon` under its identifier and answers with it.
    pub open spec fn store(self, saloon: SaloonView) -> Step {
        Step {
            registry: Registry { saloons: self.saloons.insert(saloon.id, saloon), ..self },
            outcome: Ok(saloon),
        }
    }

    /// The saloon `id`, or `NotFound`.
    pub open spec fn get(self, id: u64) -> Result<SaloonView, ErrorView> {
        if self.saloons.contains_key(id) {
            Ok(self.saloons[id])
        } else {
            Err(ErrorView::NotFound { msg: not_found_text(id) })
        }
    }

    /// The identifier that the next saloon gets.
    pub open spec fn next_id(self) -> u64 {
        (self.last_id + 1) as u64
    }

    /// A creation can be carried out when it is refused, or else when the
    /// caller has a name, an identifier is left and the new saloon fits.
    pub open spec fn can_create(self, caller: Seq<char>, payload: SaloonPayloadView, now: u64) -> bool {
        saloon_payload_fault(payload) is None ==> {
            &&& caller.len() > 0
            &&& self.last_id < u64::MAX
            &&& fits(new_saloon(caller, self.next_id(), payload, now))
        }
    }

    /// Creation: a request with a blank field is refused with `BadRequest`;
    /// otherwise the new saloon gets the next identifier.
    pub open spec fn create(self, caller: Seq<char>, payload: SaloonPayloadView, now: u64) -> Step {
        match saloon_payload_fault(payload) {
            Some(msg) => self.refuse(ErrorView::BadRequest { msg }),
            None => {
                let saloon = new_saloon(caller, self.next_id(), payload, now);
                Step {
                    registry: Registry {
                        saloons: self.saloons.insert(saloon.id, saloon),
                        last_id: saloon.id,
                    },
                    outcome: Ok(saloon),
                }
            },
        }
    }

    /// The answer to a caller who wants to change saloon `id` and may not:
    /// the saloon is missing, or it is someone else's.
    pub open spec fn barred(self, caller: Seq<char>, id: u64) -> Option<ErrorView> {
        if !self.saloons.contains_key(id) {
            Some(ErrorView::NotFound { msg: missing_text(id) })
        } else if self.saloons[id].owner != caller {
            Some(ErrorView::NotAuthorized { msg: not_owner_text() })
        } else {
            None
        }
    }

    /// An update can be carried out when it is refused, or else when the
    /// changed saloon fits.
    pub open spec fn can_update(
        self,
        caller: Seq<char>,
        id: u64,
        payload: SaloonPayloadView,
        now: u64,
    ) -> bool {
        saloon_payload_fault(payload) is None && self.barred(caller, id) is None ==> fits(
            updated_saloon(self.saloons[id], payload, now),
        )
    }

    /// Update: the request is checked first, then the saloon is looked up,
    /// then the caller; the owner gets the saloon with the new texts.
    pub open spec fn update(self, caller: Seq<char>, id: u64, payload: SaloonPayloadView, now: u64) -> Step {
        match saloon_payload_fault(payload) {
            Some(msg) => self.refuse(ErrorView::BadRequest { msg }),
            None => match self.barred(caller, id) {
                Some(error) => self.refuse(error),
                None => self.store(updated_saloon(self.saloons[id], payload, now)),
            },
        }
    }

    /// The saloon `id` with one more service, made from `payload` at `now`.
    pub open spec fn extended(self, id: u64, payload: ServicePayloadView, now: u64) -> SaloonView {
        with_services(self.saloons[id], self.saloons[id].saloonservices.push(new_service(payload, now)), now)
    }

    /// A service can be added when the request is refused, or else when the
    /// saloon still fits with it.
    pub open spec fn can_add_service(
        self,
        caller: Seq<char>,
        id: u64,
        payload: ServicePayloadView,
        now: u64,
    ) -> bool {
        service_payload_fault(payload) is None && self.barred(caller, id) is None ==> fits(
            self.extended(id, payload, now),
        )
    }

    /// A new service: the request is checked first, then the saloon is looked
    /// up, then the caller; the owner gets the saloon with one more service.
    pub open spec fn add_service(
        self,
        caller: Seq<char>,
        id: u64,
        payload: ServicePayloadView,
        now: u64,
    ) -> Step {
        match service_payload_fault(payload) {
            Some(msg) => self.refuse(ErrorView::BadRequest { msg }),
            None => match self.barred(caller, id) {
                Some(error) => self.refuse(error),
                None => self.store(self.extended(id, payload, now)),
            },
        }
    }

    /// The removal of every service of one name: the saloon is looked up, then
    /// the caller; where no service has the name the answer is `NotFound` and
    /// nothing changes.
    pub open spec fn delete_service(
        self,
        caller: Seq<char>,
        id: u64,
        service_name: Seq<char>,
        now: u64,
    ) -> Step {
        match self.barred(caller, id) {
            Some(error) => self.refuse(error),
            None => {
                let services = self.saloons[id].saloonservices;
                let kept = without_service(services, service_name);
                if kept.len() == services.len() {
                    self.refuse(ErrorView::NotFound { msg: service_missing_text(service_name, id) })
                } else {
                    self.store(with_services(self.saloons[id], kept, now))
                }
            },
        }
    }

    /// Deletion: the owner gets the saloon, which is then gone; for anyone
    /// else nothing changes.
    pub open spec fn delete(self, caller: Seq<char>, id: u64) -> Step {
        if !self.saloons.contains_key(id) {
            self.refuse(ErrorView::NotFound { msg: cannot_delete_text(id) })
        } else if self.saloons[id].owner != caller {
            self.refuse(ErrorView::NotAuthorized { msg: not_owner_text() })
        } else {
            Step {
                registry: Registry { saloons: self.saloons.remove(id), ..self },
                outcome: Ok(self.saloons[id]),
            }
        }
    }

    /// The identifiers in use, from the least to the greatest.
    pub open spec fn ids(self) -> Seq<u64> {
        ids_below(self.saloons.dom(), self.last_id as nat + 1)
    }

    /// The saloons by ascending identifier.
    pub open spec fn listing(self) -> Seq<SaloonView> {
        Seq::new(self.ids().len(), |i: int| self.saloons[self.ids()[i]])
    }

    /// At most `limit` saloons of the listing, after the first `offset`.
    pub open spec fn page(self, offset: u64, limit: u64) -> Seq<SaloonView> {
        let all = self.listing();
        let start = if offset <= all.len() { offset as int } else { all.len() as int };
        let end = if offset + limit <= all.len() { offset + limit } else { all.len() as int };
        all.subrange(start, end)
    }

    /// The saloons called exactly `name`, by ascending identifier.
    pub open spec fn named(self, name: Seq<char>) -> Seq<SaloonView> {
        with_name(self.listing(), name)
    }

    /// The saloons at exactly `location`, by ascending identifier.
    pub open spec fn located(self, location: Seq<char>) -> Seq<SaloonView> {
        with_location(self.listing(), location)
    }
}

/// `ids_below` lists, in ascending order, exactly the members below the bound.
pub proof fn lemma_ids_below(dom: Set<u64>, bound: nat)
    requires
        bound <= u64::MAX + 1,
    ensures
        ascending(ids_below(dom, bound)),
        forall|x: u64| ids_below(dom, bound).contains(x) <==> dom.contains(x) && x < bound,
    decreases bound,
{
    if bound > 0 {
        let id = (bound - 1) as u64;
        let rest = ids_below(dom, (bound - 1) as nat);
        let all = ids_below(dom, bound);
        lemma_ids_below(dom, (bound - 1) as nat);
        if dom.contains(id) {
            assert forall|i: int, j: int| 0 <= i < j < all.len() implies all[i] < all[j] by {
                assert(rest.contains(rest[i]));
                if j < rest.len() {
                    assert(rest[i] < rest[j]);
                } else {
                    assert(dom.contains(rest[i]) && rest[i] < bound - 1);
                }
            }
            assert forall|x: u64| all.contains(x) <==> dom.contains(x) && x < bound by {
                if all.contains(x) {
                    let i = choose|i: int| 0 <= i < all.len() && all[i] == x;
                    if i < rest.len() {
                        assert(rest.contains(rest[i]));
                    }
                }
                if dom.contains(x) && x < bound {
                    if x == id {
                        assert(all[rest.len() as int] == x);
                    } else {
                        assert(rest.contains(x));
                        let i = choose|i: int| 0 <= i < rest.len() && rest[i] == x;
                        assert(all[i] == x);
                    }
                }
            }
        } else {
            assert forall|x: u64| all.contains(x) <==> dom.contains(x) && x < bound by {}
        }
    }
}

/// Two ascending lists with the same members are the same list.
pub proof fn lemma_ascending_unique(a: Seq<u64>, b: Seq<u64>)
    requires
        ascending(a),
        ascending(b),
        forall|x: u64| a.contains(x) <==> b.contains(x),
    ensures
        a == b,
    decreases a.len(),
{
    if a.len() == 0 {
        if b.len() > 0 {
            assert(b.contains(b[0]));
        }
        assert(a =~= b);
    } else {
        let top = a[a.len() - 1];
        assert(a.contains(top));
        assert(b.contains(top));
        let last = b[b.len() - 1];
        assert(b.contains(last));
        assert(a.contains(last));
        let at_a = choose|i: int| 0 <= i < a.len() && a[i] == last;
        let at_b = choose|i: int| 0 <= i < b.len() && b[i] == top;
        assert(last <= top);
        assert(top <= last);
        let a0 = a.subrange(0, a.len() - 1);
        let b0 = b.subrange(0, b.len() - 1);
        assert forall|x: u64| a0.contains(x) <==> b0.contains(x) by {
            if a0.contains(x) {
                let i = choose|i: int| 0 <= i < a0.len() && a0[i] == x;
                assert(a[i] == x);
                assert(a.contains(x));
                let j = choose|j: int| 0 <= j < b.len() && b[j] == x;
                assert(b0[j] == x);
            }
            if b0.contains(x) {
                let i = choose|i: int| 0 <= i < b0.len() && b0[i] == x;
                assert(b[i] == x);
                assert(b.contains(x));
                let j = choose|j: int| 0 <= j < a.len() && a[j] == x;
                assert(a0[j] == x);
            }
        }
        lemma_ascending_unique(a0, b0);
        assert(a =~= a0.push(top));
        assert(b =~= b0.push(last));
    }
}

/// Under the invariant the identifiers in use are exactly the keys, each
/// once, in ascending order.
pub proof fn lemma_ids(registry: Registry)
    requires
        registry.inv(),
    ensures
        ascending(registry.ids()),
        forall|x: u64| registry.ids().contains(x) <==> registry.saloons.contains_key(x),
        registry.saloons.dom().finite(),
        registry.ids().len() == registry.saloons.dom().len(),
{
    let ids = registry.ids();
    lemma_ids_below(registry.saloons.dom(), registry.last_id as nat + 1);
    assert(ids.no_duplicates());
    ids.unique_seq_to_set();
    vstd::seq_lib::seq_to_set_is_finite(ids);
    assert(ids.to_set() =~= registry.saloons.dom());
}

/// An ascending list of all the keys is the list of identifiers in use.
pub proof fn lemma_keys_are_ids(registry: Registry, keys: Seq<u64>)
    requires
        registry.inv(),
        ascending(keys),
        forall|x: u64| keys.contains(x) <==> registry.saloons.contains_key(x),
    ensures
        keys == registry.ids(),
{
    lemma_ids(registry);
    lemma_ascending_unique(keys, registry.ids());
}

/// What is left after a service is taken out was there before, under
/// another name.
pub proof fn lemma_without_service_members(services: Seq<ServiceView>, service_name: Seq<char>)
    ensures
        forall|k: int|
            0 <= k < without_service(services, service_name).len() ==> {
                &&& services.contains(#[trigger] without_service(services, service_name)[k])
                &&& without_service(services, service_name)[k].service_name != service_name
            },
        without_service(services, service_name).len() <= services.len(),
    decreases services.len(),
{
    if services.len() > 0 {
        let tail = services.subrange(1, services.len() as int);
        let rest = without_service(tail, service_name);
        let kept = without_service(services, service_name);
        lemma_without_service_members(tail, service_name);
        assert forall|k: int| 0 <= k < kept.len() implies services.contains(#[trigger] kept[k])
            && kept[k].service_name != service_name by {
            if services[0].service_name == service_name {
                assert(tail.contains(rest[k]));
                let j = choose|j: int| 0 <= j < tail.len() && tail[j] == rest[k];
                assert(services[j + 1] == kept[k]);
            } else if k == 0 {
                assert(services[0] == kept[0]);
            } else {
                assert(kept[k] == rest[k - 1]);
                assert(tail.contains(rest[k - 1]));
                let j = choose|j: int| 0 <= j < tail.len() && tail[j] == rest[k - 1];
                assert(services[j + 1] == kept[k]);
            }
        }
    }
}

/// Taking a service out leaves services that take no more room.
pub proof fn lemma_without_service_size(services: Seq<ServiceView>, service_name: Seq<char>)
    ensures
        services_bytes(without_service(services, service_name)).len() <= services_bytes(services).len(),
    decreases services.len(),
{
    if services.len() > 0 {
        let tail = services.subrange(1, services.len() as int);
        let rest = without_service(tail, service_name);
        lemma_without_service_size(tail, service_name);
        if services[0].service_name != service_name {
            let kept = seq![services[0]] + rest;
            assert(kept.subrange(1, kept.len() as int) =~= rest);
        }
    }
}

} // verus!
