use saloon_store::model::{Error, Saloon, SaloonPayload, SaloonService, ServicePayload};
use saloon_store::service::{
    add_saloon, add_services_saloon, delete_saloon, delete_service_saloon, get_saloon, get_saloons,
    search_by_location, search_by_name, update_saloon,
};
use saloon_store::store::SaloonStore;

fn saloon_request(name: &str, location: &str, url: &str) -> SaloonPayload {
    SaloonPayload { name: name.to_string(), location: location.to_string(), saloon_url: url.to_string() }
}

fn service_request(name: &str, description: &str) -> ServicePayload {
    ServicePayload { service_name: name.to_string(), service_description: description.to_string() }
}

fn store_with_joes() -> SaloonStore {
    let mut store = SaloonStore::new().unwrap();
    add_saloon(&mut store, "u1", saloon_request("Joe's", "NYC", "http://a"), 100).unwrap();
    store
}

#[test]
fn create_gives_first_id_and_stamps() {
    let mut store = SaloonStore::new().unwrap();
    let saloon = add_saloon(&mut store, "u1", saloon_request("Joe's", "NYC", "http://a"), 100).unwrap();
    assert_eq!(
        saloon,
        Saloon {
            owner: "u1".to_string(),
            id: 1,
            name: "Joe's".to_string(),
            location: "NYC".to_string(),
            saloon_url: "http://a".to_string(),
            saloonservices: vec![],
            created_at: 100,
            updated_at: None,
        }
    );
}

#[test]
fn service_scenario_from_creation_to_removal() {
    let mut store = store_with_joes();

    let with_cut = add_services_saloon(&mut store, "u1", 1, service_request("Cut", "Haircut"), 200).unwrap();
    assert_eq!(
        with_cut.saloonservices,
        vec![SaloonService {
            service_name: "Cut".to_string(),
            service_description: "Haircut".to_string(),
            created_at: 200,
            updated_at: None,
        }]
    );
    assert_eq!(with_cut.updated_at, Some(200));
    assert_eq!(get_saloon(&store, 1).unwrap(), with_cut);

    let stranger = delete_service_saloon(&mut store, "u2", 1, "Cut".to_string(), 300);
    assert_eq!(stranger, Err(Error::NotAuthorized { msg: "You are not the owner".to_string() }));
    assert_eq!(get_saloon(&store, 1).unwrap(), with_cut);

    let absent = delete_service_saloon(&mut store, "u1", 1, "Shave".to_string(), 400);
    assert_eq!(
        absent,
        Err(Error::NotFound { msg: "Service with name Shave not found in saloon id=1".to_string() })
    );
    assert_eq!(get_saloon(&store, 1).unwrap(), with_cut);

    let emptied = delete_service_saloon(&mut store, "u1", 1, "Cut".to_string(), 500).unwrap();
    assert!(emptied.saloonservices.is_empty());
    assert_eq!(emptied.updated_at, Some(500));
    assert_eq!(emptied.created_at, 100);
    assert_eq!(get_saloon(&store, 1).unwrap(), emptied);
}

#[test]
fn delete_by_stranger_leaves_the_saloon() {
    let mut store = store_with_joes();
    let before = get_saloon(&store, 1).unwrap();
    let refused = delete_saloon(&mut store, "u2", 1);
    assert_eq!(refused, Err(Error::NotAuthorized { msg: "You are not the owner".to_string() }));
    assert_eq!(get_saloon(&store, 1).unwrap(), before);
    assert_eq!(get_saloons(&store, 0, 10), vec![before]);
}

#[test]
fn delete_by_owner_returns_the_saloon_and_forgets_it() {
    let mut store = store_with_joes();
    let before = get_saloon(&store, 1).unwrap();
    assert_eq!(delete_saloon(&mut store, "u1", 1), Ok(before));
    assert_eq!(
        get_saloon(&store, 1),
        Err(Error::NotFound { msg: "A saloon with id=1 not found".to_string() })
    );
    assert!(get_saloons(&store, 0, 10).is_empty());
}

#[test]
fn delete_of_missing_saloon_is_not_found() {
    let mut store = store_with_joes();
    assert_eq!(
        delete_saloon(&mut store, "u1", 42),
        Err(Error::NotFound { msg: "Couldn't delete a saloon with id=42. Saloon not found.".to_string() })
    );
    assert!(get_saloon(&store, 1).is_ok());
}

#[test]
fn deleted_id_is_not_issued_again() {
    let mut store = store_with_joes();
    delete_saloon(&mut store, "u1", 1).unwrap();
    let next = add_saloon(&mut store, "u1", saloon_request("Second", "LA", "http://b"), 110).unwrap();
    assert_eq!(next.id, 2);
    assert!(get_saloon(&store, 1).is_err());
    assert_eq!(store.last_id(), 2);
}

#[test]
fn update_overwrites_texts_and_stamps() {
    let mut store = store_with_joes();
    let updated = update_saloon(&mut store, "u1", 1, saloon_request("Joe's II", "Boston", "http://c"), 250).unwrap();
    assert_eq!(updated.name, "Joe's II");
    assert_eq!(updated.location, "Boston");
    assert_eq!(updated.saloon_url, "http://c");
    assert_eq!(updated.owner, "u1");
    assert_eq!(updated.id, 1);
    assert_eq!(updated.created_at, 100);
    assert_eq!(updated.updated_at, Some(250));
    assert_eq!(get_saloon(&store, 1).unwrap(), updated);
}

#[test]
fn update_checks_request_before_lookup() {
    let mut store = store_with_joes();
    assert_eq!(
        update_saloon(&mut store, "u1", 9, saloon_request("", "Boston", "http://c"), 250),
        Err(Error::BadRequest { msg: "Saloon name cannot be empty".to_string() })
    );
    assert_eq!(
        update_saloon(&mut store, "u1", 9, saloon_request("X", "Boston", "http://c"), 250),
        Err(Error::NotFound { msg: "Couldn't find a saloon with id=9".to_string() })
    );
    assert_eq!(
        update_saloon(&mut store, "u2", 1, saloon_request("X", "Boston", "http://c"), 250),
        Err(Error::NotAuthorized { msg: "You are not the owner".to_string() })
    );
    assert_eq!(
        update_saloon(&mut store, "u2", 1, saloon_request("X", " ", "http://c"), 250),
        Err(Error::BadRequest { msg: "Saloon location cannot be empty".to_string() })
    );
}

#[test]
fn add_service_checks_request_then_lookup_then_owner() {
    let mut store = store_with_joes();
    let before = get_saloon(&store, 1).unwrap();
    assert_eq!(
        add_services_saloon(&mut store, "u1", 7, service_request("", "Haircut"), 200),
        Err(Error::BadRequest { msg: "Service name cannot be empty".to_string() })
    );
    assert_eq!(
        add_services_saloon(&mut store, "u1", 1, service_request("Cut", "\t\n"), 200),
        Err(Error::BadRequest { msg: "Service description cannot be empty".to_string() })
    );
    assert_eq!(
        add_services_saloon(&mut store, "u1", 7, service_request("Cut", "Haircut"), 200),
        Err(Error::NotFound { msg: "Couldn't find a saloon with id=7".to_string() })
    );
    assert_eq!(
        add_services_saloon(&mut store, "u2", 1, service_request("Cut", "Haircut"), 200),
        Err(Error::NotAuthorized { msg: "You are not the owner".to_string() })
    );
    assert_eq!(get_saloon(&store, 1).unwrap(), before);
}

#[test]
fn delete_service_of_missing_saloon_is_not_found() {
    let mut store = store_with_joes();
    assert_eq!(
        delete_service_saloon(&mut store, "u1", 3, "Cut".to_string(), 200),
        Err(Error::NotFound { msg: "Couldn't find a saloon with id=3".to_string() })
    );
}

#[test]
fn delete_service_removes_every_service_of_that_name_and_keeps_order() {
    let mut store = store_with_joes();
    for (at, name) in ["Cut", "Shave", "Cut", "Dye", "Cut", "Wash"].iter().enumerate() {
        add_services_saloon(&mut store, "u1", 1, service_request(name, "text"), 200 + at as u64).unwrap();
    }
    let left = delete_service_saloon(&mut store, "u1", 1, "Cut".to_string(), 900).unwrap();
    let names: Vec<&str> = left.saloonservices.iter().map(|s| s.service_name.as_str()).collect();
    assert_eq!(names, vec!["Shave", "Dye", "Wash"]);
    let stamps: Vec<u64> = left.saloonservices.iter().map(|s| s.created_at).collect();
    assert_eq!(stamps, vec![201, 203, 205]);
    assert_eq!(get_saloon(&store, 1).unwrap(), left);
}

#[test]
fn search_matches_exactly_and_keeps_id_order() {
    let mut store = SaloonStore::new().unwrap();
    add_saloon(&mut store, "u1", saloon_request("Joe's", "NYC", "http://a"), 1).unwrap();
    add_saloon(&mut store, "u2", saloon_request("joe's", "NYC", "http://b"), 2).unwrap();
    add_saloon(&mut store, "u3", saloon_request("Joe's", "LA", "http://c"), 3).unwrap();
    add_saloon(&mut store, "u4", saloon_request("Joe's ", "NYC ", "http://d"), 4).unwrap();

    let by_name: Vec<u64> = search_by_name(&store, "Joe's".to_string()).iter().map(|s| s.id).collect();
    assert_eq!(by_name, vec![1, 3]);
    let by_location: Vec<u64> = search_by_location(&store, "NYC".to_string()).iter().map(|s| s.id).collect();
    assert_eq!(by_location, vec![1, 2]);
    assert!(search_by_name(&store, "Nobody".to_string()).is_empty());
    assert!(search_by_location(&store, "nyc".to_string()).is_empty());
}

#[test]
fn search_returns_whole_saloons() {
    let mut store = store_with_joes();
    add_services_saloon(&mut store, "u1", 1, service_request("Cut", "Haircut"), 200).unwrap();
    let stored = get_saloon(&store, 1).unwrap();
    assert_eq!(search_by_name(&store, "Joe's".to_string()), vec![stored]);
}
