use saloon_store::model::{Error, SaloonPayload, ServicePayload};
use saloon_store::service::{
    add_saloon, add_services_saloon, delete_saloon, delete_service_saloon, get_saloon, get_saloons,
    try_add_saloon, try_add_services_saloon, try_update_saloon, update_saloon,
};
use saloon_store::store::{SaloonStore, _get_saloon, check_saloon, do_insert};

fn request(name: &str, location: &str, url: &str) -> SaloonPayload {
    SaloonPayload { name: name.to_string(), location: location.to_string(), saloon_url: url.to_string() }
}

fn filled(count: u64) -> SaloonStore {
    let mut store = SaloonStore::new().unwrap();
    for i in 0..count {
        let name = format!("Saloon {}", i + 1);
        add_saloon(&mut store, "owner", request(&name, "Town", "http://x"), 1000 + i).unwrap();
    }
    store
}

#[test]
fn new_store_is_empty_and_has_issued_nothing() {
    let store = SaloonStore::new().unwrap();
    assert_eq!(store.last_id(), 0);
    assert!(get_saloons(&store, 0, 100).is_empty());
    assert!(_get_saloon(&store, &0).is_none());
    assert!(_get_saloon(&store, &1).is_none());
}

#[test]
fn opened_store_over_fresh_memory_is_empty() {
    let mut store = SaloonStore::open().unwrap();
    assert_eq!(store.last_id(), 0);
    assert!(get_saloons(&store, 0, 100).is_empty());
    let saloon = add_saloon(&mut store, "u1", request("A", "B", "C"), 5).unwrap();
    assert_eq!(saloon.id, 1);
}

#[test]
fn created_saloon_is_what_get_returns() {
    let mut store = SaloonStore::new().unwrap();
    for i in 0..5u64 {
        let created = add_saloon(&mut store, "owner", request("N\u{e9}e", "Z\u{fc}rich", "http://\u{4e2d}"), i).unwrap();
        assert_eq!(created.id, i + 1);
        assert_eq!(get_saloon(&store, created.id), Ok(created));
    }
}

#[test]
fn get_on_unissued_id_is_not_found() {
    let store = filled(3);
    assert_eq!(get_saloon(&store, 0), Err(Error::NotFound { msg: "A saloon with id=0 not found".to_string() }));
    assert_eq!(get_saloon(&store, 4), Err(Error::NotFound { msg: "A saloon with id=4 not found".to_string() }));
    assert_eq!(
        get_saloon(&store, u64::MAX),
        Err(Error::NotFound { msg: "A saloon with id=18446744073709551615 not found".to_string() })
    );
    assert_eq!(
        get_saloon(&store, 1234567890),
        Err(Error::NotFound { msg: "A saloon with id=1234567890 not found".to_string() })
    );
}

#[test]
fn stranger_is_refused_by_every_mutation_and_changes_nothing() {
    let mut store = filled(2);
    add_services_saloon(
        &mut store,
        "owner",
        2,
        ServicePayload { service_name: "Cut".to_string(), service_description: "Haircut".to_string() },
        50,
    )
    .unwrap();
    let before = get_saloons(&store, 0, 10);
    let refusal = Err(Error::NotAuthorized { msg: "You are not the owner".to_string() });

    assert_eq!(update_saloon(&mut store, "other", 2, request("X", "Y", "Z"), 60), refusal);
    assert_eq!(
        add_services_saloon(
            &mut store,
            "other",
            2,
            ServicePayload { service_name: "Dye".to_string(), service_description: "Colour".to_string() },
            60
        ),
        refusal
    );
    assert_eq!(delete_service_saloon(&mut store, "other", 2, "Cut".to_string(), 60), refusal);
    assert_eq!(delete_saloon(&mut store, "other", 2), refusal);
    assert_eq!(delete_saloon(&mut store, "", 2), refusal);
    assert_eq!(delete_saloon(&mut store, "Owner", 2), refusal);
    assert_eq!(get_saloons(&store, 0, 10), before);
    assert_eq!(store.last_id(), 2);
}

#[test]
fn refused_creation_issues_no_id() {
    let mut store = SaloonStore::new().unwrap();
    assert_eq!(
        add_saloon(&mut store, "u1", request("", "NYC", "http://a"), 1),
        Err(Error::BadRequest { msg: "Saloon name cannot be empty".to_string() })
    );
    assert_eq!(
        add_saloon(&mut store, "u1", request("Joe's", "", "http://a"), 1),
        Err(Error::BadRequest { msg: "Saloon location cannot be empty".to_string() })
    );
    assert_eq!(
        add_saloon(&mut store, "u1", request("Joe's", "NYC", ""), 1),
        Err(Error::BadRequest { msg: "Saloon URL cannot be empty".to_string() })
    );
    assert_eq!(
        add_saloon(&mut store, "u1", request("   ", "", ""), 1),
        Err(Error::BadRequest { msg: "Saloon name cannot be empty".to_string() })
    );
    assert_eq!(store.last_id(), 0);
    assert!(get_saloons(&store, 0, 10).is_empty());
    let first = add_saloon(&mut store, "u1", request("Joe's", "NYC", "http://a"), 2).unwrap();
    assert_eq!(first.id, 1);
    let second = add_saloon(&mut store, "u1", request("Moe's", "LA", "http://b"), 3).unwrap();
    assert_eq!(second.id, 2);
}

#[test]
fn page_holds_min_of_limit_and_what_is_left() {
    let store = filled(5);
    let cases: [(u64, u64, Vec<u64>); 10] = [
        (0, 0, vec![]),
        (0, 2, vec![1, 2]),
        (0, 5, vec![1, 2, 3, 4, 5]),
        (0, 9, vec![1, 2, 3, 4, 5]),
        (3, 1, vec![4]),
        (3, 2, vec![4, 5]),
        (3, 7, vec![4, 5]),
        (5, 3, vec![]),
        (6, u64::MAX, vec![]),
        (u64::MAX, u64::MAX, vec![]),
    ];
    for (offset, limit, expected) in cases {
        let ids: Vec<u64> = get_saloons(&store, offset, limit).iter().map(|s| s.id).collect();
        assert_eq!(ids, expected, "offset {} limit {}", offset, limit);
    }
    let everything: Vec<u64> = get_saloons(&store, 1, u64::MAX).iter().map(|s| s.id).collect();
    assert_eq!(everything, vec![2, 3, 4, 5]);
}

#[test]
fn page_skips_deleted_saloons_and_stays_ascending() {
    let mut store = filled(12);
    delete_saloon(&mut store, "owner", 3).unwrap();
    delete_saloon(&mut store, "owner", 10).unwrap();
    let ids: Vec<u64> = get_saloons(&store, 0, 100).iter().map(|s| s.id).collect();
    assert_eq!(ids, vec![1, 2, 4, 5, 6, 7, 8, 9, 11, 12]);
    let page: Vec<u64> = get_saloons(&store, 2, 3).iter().map(|s| s.id).collect();
    assert_eq!(page, vec![4, 5, 6]);
    assert!(get_saloons(&store, 10, 1).is_empty());
}

#[test]
fn many_saloons_keep_their_records_apart() {
    let store = filled(40);
    for id in 1..=40u64 {
        let saloon = get_saloon(&store, id).unwrap();
        assert_eq!(saloon.id, id);
        assert_eq!(saloon.name, format!("Saloon {}", id));
        assert_eq!(saloon.created_at, 999 + id);
    }
}

#[test]
fn do_insert_replaces_the_stored_saloon() {
    let mut store = filled(2);
    let mut saloon = _get_saloon(&store, &2).unwrap();
    saloon.name = "Renamed".to_string();
    assert!(check_saloon(&saloon));
    do_insert(&mut store, &saloon);
    assert_eq!(_get_saloon(&store, &2), Some(saloon));
    assert_eq!(_get_saloon(&store, &1).unwrap().name, "Saloon 1");
    assert_eq!(store.last_id(), 2);
}

#[test]
fn check_saloon_rejects_what_may_not_be_stored() {
    let store = filled(1);
    let good = _get_saloon(&store, &1).unwrap();
    assert!(check_saloon(&good));

    let mut no_owner = good.clone();
    no_owner.owner = String::new();
    assert!(!check_saloon(&no_owner));

    let mut blank_url = good.clone();
    blank_url.saloon_url = " \u{a0}".to_string();
    assert!(!check_saloon(&blank_url));

    let mut too_long = good.clone();
    too_long.location = "x".repeat(2000);
    assert!(!check_saloon(&too_long));

    let mut blank_service = good.clone();
    blank_service.saloonservices.push(saloon_store::model::SaloonService {
        service_name: "Cut".to_string(),
        service_description: "".to_string(),
        created_at: 1,
        updated_at: None,
    });
    assert!(!check_saloon(&blank_service));
}

#[test]
fn attempts_refuse_what_does_not_fit_and_change_nothing() {
    let mut store = filled(1);
    let before = get_saloons(&store, 0, 10);

    assert!(try_add_saloon(&mut store, "u1", request(&"n".repeat(1100), "L", "U"), 5).is_none());
    assert!(try_add_saloon(&mut store, "", request("N", "L", "U"), 5).is_none());
    assert!(try_update_saloon(&mut store, "owner", 1, request("N", &"l".repeat(1100), "U"), 5).is_none());
    assert!(try_add_services_saloon(
        &mut store,
        "owner",
        1,
        ServicePayload { service_name: "Cut".to_string(), service_description: "d".repeat(1100) },
        5
    )
    .is_none());
    assert_eq!(get_saloons(&store, 0, 10), before);
    assert_eq!(store.last_id(), 1);
}

#[test]
fn attempts_answer_as_the_operations_do() {
    let mut store = SaloonStore::new().unwrap();
    let created = try_add_saloon(&mut store, "u1", request("Joe's", "NYC", "http://a"), 5).unwrap().unwrap();
    assert_eq!(created.id, 1);
    assert_eq!(
        try_add_saloon(&mut store, "", request("", "NYC", "http://a"), 5),
        Some(Err(Error::BadRequest { msg: "Saloon name cannot be empty".to_string() }))
    );
    assert_eq!(
        try_update_saloon(&mut store, "u2", 1, request("X", "Y", "Z"), 6),
        Some(Err(Error::NotAuthorized { msg: "You are not the owner".to_string() }))
    );
    assert_eq!(
        try_update_saloon(&mut store, "u1", 2, request("X", "Y", "Z"), 6),
        Some(Err(Error::NotFound { msg: "Couldn't find a saloon with id=2".to_string() }))
    );
    let updated = try_update_saloon(&mut store, "u1", 1, request("X", "Y", "Z"), 7).unwrap().unwrap();
    assert_eq!(updated.updated_at, Some(7));
    let extended = try_add_services_saloon(
        &mut store,
        "u1",
        1,
        ServicePayload { service_name: "Cut".to_string(), service_description: "Haircut".to_string() },
        8,
    )
    .unwrap()
    .unwrap();
    assert_eq!(extended.saloonservices.len(), 1);
    assert_eq!(get_saloon(&store, 1), Ok(extended));
}

#[test]
fn saloon_fills_up_with_services_and_then_refuses_more() {
    let mut store = filled(1);
    let mut added = 0u64;
    loop {
        let payload = ServicePayload { service_name: "Cut".to_string(), service_description: "Haircut".to_string() };
        match try_add_services_saloon(&mut store, "owner", 1, payload, 10 + added) {
            Some(outcome) => {
                outcome.unwrap();
                added += 1;
            }
            None => break,
        }
        assert!(added < 1000);
    }
    // Each such service takes 4 + 3 + 4 + 7 + 8 + 9 = 35 bytes; the rest of the
    // record takes 8 + (4 + 5) + (4 + 8) + (4 + 4) + (4 + 8) + 4 + 8 + 9 = 70.
    assert_eq!(added, (1024 - 70) / 35);
    let stored = get_saloon(&store, 1).unwrap();
    assert_eq!(stored.saloonservices.len() as u64, added);
    let emptied = delete_service_saloon(&mut store, "owner", 1, "Cut".to_string(), 99).unwrap();
    assert!(emptied.saloonservices.is_empty());
}

#[test]
fn identifiers_are_issued_in_sequence_from_one() {
    let mut store = SaloonStore::new().unwrap();
    assert_eq!(store.next_id(), 1);
    assert_eq!(store.next_id(), 2);
    assert_eq!(store.last_id(), 2);
    let saloon = add_saloon(&mut store, "u1", request("A", "B", "C"), 1).unwrap();
    assert_eq!(saloon.id, 3);
    assert_eq!(store.next_id(), 4);
    assert!(get_saloon(&store, 1).is_err());
    assert!(get_saloon(&store, 2).is_err());
    assert!(get_saloon(&store, 4).is_err());
}

#[test]
fn stores_do_not_share_their_saloons() {
    let mut first = SaloonStore::new().unwrap();
    let mut second = SaloonStore::new().unwrap();
    add_saloon(&mut first, "u1", request("A", "B", "C"), 1).unwrap();
    add_saloon(&mut first, "u1", request("D", "E", "F"), 2).unwrap();
    assert!(get_saloons(&second, 0, 10).is_empty());
    let saloon = add_saloon(&mut second, "u2", request("G", "H", "I"), 3).unwrap();
    assert_eq!(saloon.id, 1);
    assert_eq!(get_saloon(&first, 1).unwrap().owner, "u1");
    assert_eq!(get_saloon(&second, 1).unwrap().owner, "u2");
}
