use saloon_store::codec::{decode_saloon, encode_saloon};
use saloon_store::model::{Error, Saloon, SaloonPayload, SaloonService, ServicePayload};
use saloon_store::validate::{blank, validate_saloon_payload, validate_service_payload};

fn sample() -> Saloon {
    Saloon {
        owner: "u1".to_string(),
        id: 0x0102030405060708,
        name: "Joe's".to_string(),
        location: "NYC".to_string(),
        saloon_url: "http://a".to_string(),
        saloonservices: vec![
            SaloonService {
                service_name: "Cut".to_string(),
                service_description: "Haircut".to_string(),
                created_at: 7,
                updated_at: None,
            },
            SaloonService {
                service_name: "F\u{f6}n".to_string(),
                service_description: "\u{1f487}".to_string(),
                created_at: 8,
                updated_at: Some(9),
            },
        ],
        created_at: 5,
        updated_at: Some(u64::MAX),
    }
}

#[test]
fn record_of_a_bare_saloon_has_the_declared_layout() {
    let saloon = Saloon {
        owner: "u1".to_string(),
        id: 1,
        name: "A".to_string(),
        location: "\u{e9}".to_string(),
        saloon_url: "".to_string(),
        saloonservices: vec![],
        created_at: 0x0201,
        updated_at: None,
    };
    let expected: Vec<u8> = vec![
        1, 0, 0, 0, 0, 0, 0, 0, // id
        2, 0, 0, 0, b'u', b'1', // owner
        1, 0, 0, 0, b'A', // name
        2, 0, 0, 0, 0xc3, 0xa9, // location
        0, 0, 0, 0, // url
        0, 0, 0, 0, // number of services
        1, 2, 0, 0, 0, 0, 0, 0, // created_at
        0, 0, 0, 0, 0, 0, 0, 0, 0, // updated_at
    ];
    assert_eq!(encode_saloon(&saloon), Some(expected));
}

#[test]
fn record_with_a_service_has_the_declared_layout() {
    let saloon = Saloon {
        owner: "o".to_string(),
        id: 2,
        name: "n".to_string(),
        location: "l".to_string(),
        saloon_url: "u".to_string(),
        saloonservices: vec![SaloonService {
            service_name: "s".to_string(),
            service_description: "d".to_string(),
            created_at: 3,
            updated_at: Some(4),
        }],
        created_at: 5,
        updated_at: Some(6),
    };
    let expected: Vec<u8> = vec![
        2, 0, 0, 0, 0, 0, 0, 0, //
        1, 0, 0, 0, b'o', //
        1, 0, 0, 0, b'n', //
        1, 0, 0, 0, b'l', //
        1, 0, 0, 0, b'u', //
        1, 0, 0, 0, //
        1, 0, 0, 0, b's', //
        1, 0, 0, 0, b'd', //
        3, 0, 0, 0, 0, 0, 0, 0, //
        1, 4, 0, 0, 0, 0, 0, 0, 0, //
        5, 0, 0, 0, 0, 0, 0, 0, //
        1, 6, 0, 0, 0, 0, 0, 0, 0, //
    ];
    assert_eq!(encode_saloon(&saloon), Some(expected));
}

#[test]
fn decoding_a_record_gives_the_saloon_back() {
    let saloon = sample();
    let record = encode_saloon(&saloon).unwrap();
    assert_eq!(decode_saloon(&record), Some(saloon));
}

#[test]
fn decoding_refuses_what_is_no_record() {
    let record = encode_saloon(&sample()).unwrap();
    assert_eq!(decode_saloon(&[]), None);
    assert_eq!(decode_saloon(&record[..record.len() - 1]), None);
    let mut longer = record.clone();
    longer.push(0);
    assert_eq!(decode_saloon(&longer), None);
    let mut bad_marker = record.clone();
    let at = bad_marker.len() - 9;
    bad_marker[at] = 2;
    assert_eq!(decode_saloon(&bad_marker), None);
    let mut bad_text = record.clone();
    bad_text[12] = 0xff;
    assert_eq!(decode_saloon(&bad_text), None);
    let mut bad_length = record.clone();
    bad_length[8] = 0xff;
    bad_length[9] = 0xff;
    assert_eq!(decode_saloon(&bad_length), None);
    assert_eq!(decode_saloon(&[0xffu8; 64]), None);
}

#[test]
fn encoding_refuses_a_saloon_over_the_bound() {
    let mut saloon = sample();
    let size = encode_saloon(&saloon).unwrap().len();
    saloon.name.push_str(&"x".repeat(1024 - size));
    assert_eq!(encode_saloon(&saloon).unwrap().len(), 1024);
    saloon.name.push('x');
    assert_eq!(encode_saloon(&saloon), None);
    saloon.name = "x".repeat(5000);
    assert_eq!(encode_saloon(&saloon), None);
}

#[test]
fn blank_is_empty_or_whitespace_only() {
    assert!(blank(""));
    assert!(blank(" "));
    assert!(blank(" \t\r\n\u{0b}\u{0c}"));
    assert!(blank("\u{85}\u{a0}\u{1680}\u{2000}\u{200a}\u{2028}\u{2029}\u{202f}\u{205f}\u{3000}"));
    assert!(!blank("a"));
    assert!(!blank("  a  "));
    assert!(!blank("\u{200b}"));
    assert!(!blank("\u{180e}"));
    assert!(!blank("\u{1c}"));
    assert!(!blank(" \u{feff} "));
}

#[test]
fn saloon_request_is_checked_field_by_field() {
    let check = |name: &str, location: &str, url: &str| {
        validate_saloon_payload(&SaloonPayload {
            name: name.to_string(),
            location: location.to_string(),
            saloon_url: url.to_string(),
        })
    };
    assert_eq!(check("Joe's", "NYC", "http://a"), Ok(()));
    assert_eq!(check(" Joe's ", " NYC ", " http://a "), Ok(()));
    assert_eq!(check("", "NYC", "http://a"), Err(Error::BadRequest { msg: "Saloon name cannot be empty".to_string() }));
    assert_eq!(check(" \n", "", ""), Err(Error::BadRequest { msg: "Saloon name cannot be empty".to_string() }));
    assert_eq!(
        check("Joe's", "\t", ""),
        Err(Error::BadRequest { msg: "Saloon location cannot be empty".to_string() })
    );
    assert_eq!(check("Joe's", "NYC", "  "), Err(Error::BadRequest { msg: "Saloon URL cannot be empty".to_string() }));
}

#[test]
fn service_request_is_checked_field_by_field() {
    let check = |name: &str, description: &str| {
        validate_service_payload(&ServicePayload {
            service_name: name.to_string(),
            service_description: description.to_string(),
        })
    };
    assert_eq!(check("Cut", "Haircut"), Ok(()));
    assert_eq!(check("", "Haircut"), Err(Error::BadRequest { msg: "Service name cannot be empty".to_string() }));
    assert_eq!(check(" ", " "), Err(Error::BadRequest { msg: "Service name cannot be empty".to_string() }));
    assert_eq!(
        check("Cut", "\u{3000}"),
        Err(Error::BadRequest { msg: "Service description cannot be empty".to_string() })
    );
}
