use car_service::codec::{encode_response, get_id, parse_request, INTERNAL_ERROR, NOT_FOUND, OK_RESPONSE};
use car_service::json::{parse_car, to_json_car, to_json_cars};
use car_service::router::parse_id;
use car_service::vehicle::Car;

#[test]
fn parse_request_splits_method_path_body() {
    let raw = "POST /cars HTTP/1.1\r\nHost: localhost\r\n\r\n{\"brand\":\"a\"}";
    let req = parse_request(raw);
    assert_eq!(req.method, "POST");
    assert_eq!(req.path, "/cars");
    assert_eq!(req.body, "{\"brand\":\"a\"}");
}

#[test]
fn parse_request_without_separator_has_empty_body() {
    let req = parse_request("GET /cars HTTP/1.1\r\nHost: x");
    assert_eq!(req.method, "GET");
    assert_eq!(req.path, "/cars");
    assert_eq!(req.body, "");
}

#[test]
fn parse_request_body_is_text_after_first_separator() {
    let req = parse_request("PUT /cars/2 HTTP/1.1\r\n\r\nfirst\r\n\r\nsecond");
    assert_eq!(req.body, "first\r\n\r\nsecond");
}

#[test]
fn get_id_takes_third_slash_segment() {
    assert_eq!(get_id("/cars/4"), "4");
    assert_eq!(get_id("/cars/17/extra"), "17");
    assert_eq!(get_id("/cars/4 HTTP/1.1"), "4");
}

#[test]
fn get_id_missing_segment_is_empty() {
    assert_eq!(get_id("/cars"), "");
    assert_eq!(get_id("/cars/"), "");
    assert_eq!(get_id(""), "");
}

#[test]
fn parse_id_rejects_empty_and_non_numeric() {
    assert_eq!(parse_id(""), None);
    assert_eq!(parse_id("abc"), None);
    assert_eq!(parse_id("12x"), None);
    assert_eq!(parse_id("-"), None);
    assert_eq!(parse_id("4"), Some(4));
    assert_eq!(parse_id("-17"), Some(-17));
    assert_eq!(parse_id("007"), Some(7));
}

#[test]
fn parse_id_respects_the_32_bit_range() {
    assert_eq!(parse_id("2147483647"), Some(2147483647));
    assert_eq!(parse_id("2147483648"), None);
    assert_eq!(parse_id("-2147483648"), Some(-2147483648));
    assert_eq!(parse_id("-2147483649"), None);
}

#[test]
fn to_json_renders_the_exact_object() {
    let c = Car {
        id: Some(3),
        brand: "Toyota".to_string(),
        model: "Corolla".to_string(),
        year: 2020,
        price: "18000.0".to_string(),
    };
    assert_eq!(
        to_json_car(&c),
        "{\"id\":3,\"brand\":\"Toyota\",\"model\":\"Corolla\",\"year\":2020,\"price\":18000.0}"
    );
}

#[test]
fn to_json_renders_null_id_and_negative_year() {
    let c = Car {
        id: None,
        brand: "X".to_string(),
        model: "Y".to_string(),
        year: -5,
        price: "0.5".to_string(),
    };
    assert_eq!(to_json_car(&c), "{\"id\":null,\"brand\":\"X\",\"model\":\"Y\",\"year\":-5,\"price\":0.5}");
}

#[test]
fn to_json_cars_joins_with_commas() {
    let a = Car {
        id: Some(1),
        brand: "A".to_string(),
        model: "B".to_string(),
        year: 1,
        price: "2".to_string(),
    };
    let b = Car {
        id: Some(2),
        brand: "C".to_string(),
        model: "D".to_string(),
        year: 3,
        price: "4".to_string(),
    };
    assert_eq!(to_json_cars(&vec![]), "[]");
    assert_eq!(to_json_cars(&vec![a.clone()]), format!("[{}]", to_json_car(&a)));
    assert_eq!(
        to_json_cars(&vec![a.clone(), b.clone()]),
        format!("[{},{}]", to_json_car(&a), to_json_car(&b))
    );
}

#[test]
fn parse_car_reads_the_canonical_body() {
    let c = parse_car("{\"brand\":\"Toyota\",\"model\":\"Corolla\",\"year\":2020,\"price\":18000.0}")
        .expect("well-formed body");
    assert_eq!(c.id, None);
    assert_eq!(c.brand, "Toyota");
    assert_eq!(c.model, "Corolla");
    assert_eq!(c.year, 2020);
    assert_eq!(c.price, "18000.0");
}

#[test]
fn parse_car_accepts_whitespace_and_id() {
    let c = parse_car(" { \"id\" : null , \"brand\" : \"A\" , \"model\" : \"B\" , \"year\" : -3 , \"price\" : 1e3 } ")
        .expect("well-formed body");
    assert_eq!(c.id, None);
    assert_eq!(c.year, -3);
    assert_eq!(c.price, "1e3");
    let d = parse_car("{\"id\":9,\"brand\":\"A\",\"model\":\"B\",\"year\":0,\"price\":1}")
        .expect("well-formed body");
    assert_eq!(d.id, Some(9));
}

#[test]
fn parse_car_rejects_malformed_bodies() {
    assert!(parse_car("").is_none());
    assert!(parse_car("not json").is_none());
    assert!(parse_car("{\"brand\":\"Toyota\"}").is_none());
    assert!(parse_car("{\"brand\":\"Toyota\",\"model\":\"Corolla\",\"year\":\"x\",\"price\":1}").is_none());
    assert!(parse_car("{\"brand\":\"Toyota\",\"model\":\"Corolla\",\"year\":2020,\"price\":18000.0").is_none());
    assert!(parse_car("{\"brand\":\"Toyota\",\"model\":\"Corolla\",\"year\":2020,\"price\":18000.0}x").is_none());
    assert!(parse_car("{\"brand\":\"Toyota\",\"model\":\"Corolla\",\"year\":99999999999,\"price\":1}").is_none());
}

#[test]
fn encode_response_concatenates_status_and_payload() {
    assert_eq!(
        encode_response(OK_RESPONSE, "Car created"),
        format!("{}{}", OK_RESPONSE, "Car created")
    );
    assert_eq!(encode_response(NOT_FOUND, "x"), format!("{}x", NOT_FOUND));
    assert_eq!(encode_response(INTERNAL_ERROR, ""), INTERNAL_ERROR);
}

#[test]
fn parse_car_requires_json_numbers() {
    assert!(parse_car("{\"brand\":\"b\",\"model\":\"m\",\"year\":1,\"price\":-}").is_none());
    assert!(parse_car("{\"brand\":\"b\",\"model\":\"m\",\"year\":1,\"price\":1e}").is_none());
    assert!(parse_car("{\"brand\":\"b\",\"model\":\"m\",\"year\":1,\"price\":1.2.3}").is_none());
    assert!(parse_car("{\"brand\":\"b\",\"model\":\"m\",\"year\":1,\"price\":18000.}").is_none());
    assert!(parse_car("{\"brand\":\"b\",\"model\":\"m\",\"year\":1,\"price\":--1}").is_none());
    assert!(parse_car("{\"brand\":\"b\",\"model\":\"m\",\"year\":1,\"price\":01}").is_none());
    assert!(parse_car("{\"brand\":\"b\",\"model\":\"m\",\"year\":007,\"price\":1}").is_none());
    assert!(parse_car("{\"id\":01,\"brand\":\"b\",\"model\":\"m\",\"year\":1,\"price\":1}").is_none());
    let c = parse_car("{\"brand\":\"b\",\"model\":\"m\",\"year\":-3,\"price\":-0.5e+10}")
        .expect("well-formed body");
    assert_eq!(c.price, "-0.5e+10");
    let d = parse_car("{\"brand\":\"b\",\"model\":\"m\",\"year\":0,\"price\":0}")
        .expect("well-formed body");
    assert_eq!(d.year, 0);
    assert_eq!(d.price, "0");
}

#[test]
fn parse_id_accepts_a_leading_plus() {
    assert_eq!(parse_id("+17"), Some(17));
    assert_eq!(parse_id("+0"), Some(0));
    assert_eq!(parse_id("+007"), Some(7));
    assert_eq!(parse_id("+"), None);
    assert_eq!(parse_id("+-5"), None);
    assert_eq!(parse_id("++5"), None);
}

#[test]
fn parse_car_accepts_any_member_order() {
    let c = parse_car("{\"price\":18000.0,\"year\":2020,\"model\":\"Corolla\",\"brand\":\"Toyota\"}")
        .expect("well-formed body");
    assert_eq!(c.brand, "Toyota");
    assert_eq!(c.model, "Corolla");
    assert_eq!(c.year, 2020);
    assert_eq!(c.price, "18000.0");
    let d = parse_car("{\"model\":\"B\",\"id\":7,\"price\":1,\"brand\":\"A\",\"year\":2}")
        .expect("well-formed body");
    assert_eq!(d.id, Some(7));
    assert_eq!(d.brand, "A");
}

#[test]
fn parse_car_rejects_repeated_members_and_missing_fields() {
    assert!(parse_car("{\"brand\":\"A\",\"brand\":\"B\",\"model\":\"m\",\"year\":1,\"price\":1}").is_none());
    assert!(parse_car("{\"brand\":\"A\",\"model\":\"m\",\"year\":1}").is_none());
    assert!(parse_car("{}").is_none());
}

#[test]
fn parse_car_skips_unknown_members() {
    let c = parse_car("{\"brand\":\"A\",\"color\":\"red\",\"model\":\"m\",\"year\":1,\"price\":1}")
        .expect("unknown member is skipped");
    assert_eq!(c.brand, "A");
    assert_eq!(c.year, 1);
    let d = parse_car(
        "{\"opts\":{\"a\":[1,2,{\"b\":null}],\"c\":true},\"brand\":\"A\",\"model\":\"m\",\"year\":1,\"price\":1,\"extra\":[[],false]}",
    )
    .expect("nested unknown values are skipped");
    assert_eq!(d.model, "m");
    assert!(parse_car("{\"x\":[1,,2],\"brand\":\"A\",\"model\":\"m\",\"year\":1,\"price\":1}").is_none());
}

#[test]
fn parse_car_decodes_string_escapes() {
    let c = parse_car("{\"brand\":\"a\\\"b\",\"model\":\"c\\\\d\\/e\",\"year\":1,\"price\":1}")
        .expect("escapes are decoded");
    assert_eq!(c.brand, "a\"b");
    assert_eq!(c.model, "c\\d/e");
    let d = parse_car("{\"brand\":\"x\\ny\",\"model\":\"m\\tq\",\"year\":1,\"price\":1}")
        .expect("control escapes are decoded");
    assert_eq!(d.brand, "x\ny");
    assert_eq!(d.model, "m\tq");
    let e = parse_car("{\"br\\u0061nd\":\"A\",\"model\":\"m\",\"year\":1,\"price\":1}")
        .expect("keys are compared after decoding");
    assert_eq!(e.brand, "A");
}

#[test]
fn parse_car_decodes_unicode_escapes() {
    let c = parse_car("{\"brand\":\"\\u0041\\u004a\",\"model\":\"\\u00e9\",\"year\":1,\"price\":1}")
        .expect("unicode escapes are decoded");
    assert_eq!(c.brand, "AJ");
    assert_eq!(c.model, "\u{e9}");
}

#[test]
fn parse_car_rejects_raw_controls_and_bad_escapes() {
    assert!(parse_car("{\"brand\":\"a\nb\",\"model\":\"m\",\"year\":1,\"price\":1}").is_none());
    assert!(parse_car("{\"brand\":\"a\tb\",\"model\":\"m\",\"year\":1,\"price\":1}").is_none());
    assert!(parse_car("{\"brand\":\"a\\x\",\"model\":\"m\",\"year\":1,\"price\":1}").is_none());
    assert!(parse_car("{\"brand\":\"\\u00\",\"model\":\"m\",\"year\":1,\"price\":1}").is_none());
    assert!(parse_car("{\"brand\":\"\\ud800\",\"model\":\"m\",\"year\":1,\"price\":1}").is_none());
    assert!(parse_car("{\"brand\":\"\\ud83d\\ude00\",\"model\":\"m\",\"year\":1,\"price\":1}").is_none());
}

#[test]
fn to_json_escapes_text_fields() {
    let c = Car {
        id: Some(1),
        brand: "a\"b\\c".to_string(),
        model: "x\ny\u{1b}".to_string(),
        year: 1,
        price: "2".to_string(),
    };
    assert_eq!(
        to_json_car(&c),
        "{\"id\":1,\"brand\":\"a\\\"b\\\\c\",\"model\":\"x\\ny\\u001b\",\"year\":1,\"price\":2}"
    );
}
