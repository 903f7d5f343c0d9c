use car_service::codec::{INTERNAL_ERROR, NOT_FOUND, OK_RESPONSE};
use car_service::router::handle_request;
use car_service::store::Store;

#[test]
fn end_to_end_create_get_delete() {
    let mut s = Store::new();

    let (st, body) = handle_request(
        &mut s,
        "POST /cars HTTP/1.1\r\nHost: localhost\r\n\r\n{\"brand\":\"Toyota\",\"model\":\"Corolla\",\"year\":2020,\"price\":18000.0}",
    );
    assert_eq!(st, OK_RESPONSE);
    assert_eq!(body, "Car created");

    let (st, body) = handle_request(&mut s, "GET /cars/1 HTTP/1.1\r\n\r\n");
    assert_eq!(st, OK_RESPONSE);
    assert_eq!(
        body,
        "{\"id\":1,\"brand\":\"Toyota\",\"model\":\"Corolla\",\"year\":2020,\"price\":18000.0}"
    );

    let (st, body) = handle_request(&mut s, "DELETE /cars/1 HTTP/1.1\r\n\r\n");
    assert_eq!(st, OK_RESPONSE);
    assert_eq!(body, "Car deleted");

    let (st, body) = handle_request(&mut s, "GET /cars/1 HTTP/1.1\r\n\r\n");
    assert_eq!(st, NOT_FOUND);
    assert_eq!(body, "Car not found");
}

#[test]
fn get_all_lists_every_stored_row() {
    let mut s = Store::new();
    handle_request(
        &mut s,
        "POST /cars HTTP/1.1\r\n\r\n{\"brand\":\"A\",\"model\":\"B\",\"year\":1,\"price\":2}",
    );
    handle_request(
        &mut s,
        "POST /cars HTTP/1.1\r\n\r\n{\"brand\":\"C\",\"model\":\"D\",\"year\":3,\"price\":4}",
    );
    let (st, body) = handle_request(&mut s, "GET /cars HTTP/1.1\r\n\r\n");
    assert_eq!(st, OK_RESPONSE);
    assert_eq!(
        body,
        "[{\"id\":1,\"brand\":\"A\",\"model\":\"B\",\"year\":1,\"price\":2},{\"id\":2,\"brand\":\"C\",\"model\":\"D\",\"year\":3,\"price\":4}]"
    );
}

#[test]
fn update_is_reflected_in_a_later_get() {
    let mut s = Store::new();
    handle_request(
        &mut s,
        "POST /cars HTTP/1.1\r\n\r\n{\"brand\":\"Toyota\",\"model\":\"Corolla\",\"year\":2020,\"price\":18000.0}",
    );
    let (st, body) = handle_request(
        &mut s,
        "PUT /cars/1 HTTP/1.1\r\n\r\n{\"brand\":\"Toyota\",\"model\":\"Camry\",\"year\":2021,\"price\":25000.0}",
    );
    assert_eq!(st, OK_RESPONSE);
    assert_eq!(body, "Car updated");
    let (_, body) = handle_request(&mut s, "GET /cars/1 HTTP/1.1\r\n\r\n");
    assert_eq!(
        body,
        "{\"id\":1,\"brand\":\"Toyota\",\"model\":\"Camry\",\"year\":2021,\"price\":25000.0}"
    );
}

#[test]
fn update_of_absent_id_reports_success_and_adds_nothing() {
    let mut s = Store::new();
    let (st, body) = handle_request(
        &mut s,
        "PUT /cars/9 HTTP/1.1\r\n\r\n{\"brand\":\"A\",\"model\":\"B\",\"year\":1,\"price\":2}",
    );
    assert_eq!(st, OK_RESPONSE);
    assert_eq!(body, "Car updated");
    let (_, body) = handle_request(&mut s, "GET /cars HTTP/1.1\r\n\r\n");
    assert_eq!(body, "[]");
}

#[test]
fn malformed_body_yields_internal_error_and_changes_nothing() {
    let mut s = Store::new();
    let (st, body) = handle_request(&mut s, "POST /cars HTTP/1.1\r\n\r\nnot json");
    assert_eq!(st, INTERNAL_ERROR);
    assert_eq!(body, "Internal error");
    let (st, body) = handle_request(
        &mut s,
        "PUT /cars/1 HTTP/1.1\r\n\r\n{\"brand\":\"Toyota\"}",
    );
    assert_eq!(st, INTERNAL_ERROR);
    assert_eq!(body, "Internal error");
    let (_, body) = handle_request(&mut s, "GET /cars HTTP/1.1\r\n\r\n");
    assert_eq!(body, "[]");
}

#[test]
fn missing_body_yields_internal_error() {
    let mut s = Store::new();
    let (st, body) = handle_request(&mut s, "POST /cars HTTP/1.1\r\nHost: x");
    assert_eq!(st, INTERNAL_ERROR);
    assert_eq!(body, "Internal error");
}

#[test]
fn empty_or_malformed_id_is_an_error_not_id_zero() {
    let mut s = Store::new();
    handle_request(
        &mut s,
        "POST /cars HTTP/1.1\r\n\r\n{\"brand\":\"A\",\"model\":\"B\",\"year\":1,\"price\":2}",
    );
    let (st, _) = handle_request(&mut s, "GET /cars/ HTTP/1.1\r\n\r\n");
    assert_eq!(st, INTERNAL_ERROR);
    let (st, _) = handle_request(&mut s, "DELETE /cars/abc HTTP/1.1\r\n\r\n");
    assert_eq!(st, INTERNAL_ERROR);
    let (_, body) = handle_request(&mut s, "GET /cars HTTP/1.1\r\n\r\n");
    assert_ne!(body, "[]");
}

#[test]
fn unmatched_requests_get_the_not_found_reply() {
    let mut s = Store::new();
    let (st, body) = handle_request(&mut s, "PATCH /cars/1 HTTP/1.1\r\n\r\n");
    assert_eq!(st, NOT_FOUND);
    assert_eq!(body, "404 not found");
    let (st, body) = handle_request(&mut s, "GET /bikes HTTP/1.1\r\n\r\n");
    assert_eq!(st, NOT_FOUND);
    assert_eq!(body, "404 not found");
}

#[test]
fn extra_trailing_segments_still_route() {
    let mut s = Store::new();
    handle_request(
        &mut s,
        "POST /cars HTTP/1.1\r\n\r\n{\"brand\":\"A\",\"model\":\"B\",\"year\":1,\"price\":2}",
    );
    let (st, _) = handle_request(&mut s, "GET /cars/1/extra HTTP/1.1\r\n\r\n");
    assert_eq!(st, OK_RESPONSE);
}

#[test]
fn leading_zero_year_is_malformed_end_to_end() {
    let mut s = Store::new();
    let (st, body) = handle_request(
        &mut s,
        "POST /cars HTTP/1.1\r\n\r\n{\"brand\":\"b\",\"model\":\"m\",\"year\":007,\"price\":1}",
    );
    assert_eq!(st, INTERNAL_ERROR);
    assert_eq!(body, "Internal error");
    let (_, body) = handle_request(&mut s, "GET /cars HTTP/1.1\r\n\r\n");
    assert_eq!(body, "[]");
}

#[test]
fn bare_minus_price_is_malformed_end_to_end() {
    let mut s = Store::new();
    handle_request(
        &mut s,
        "POST /cars HTTP/1.1\r\n\r\n{\"brand\":\"A\",\"model\":\"B\",\"year\":1,\"price\":2}",
    );
    let (st, body) = handle_request(
        &mut s,
        "PUT /cars/1 HTTP/1.1\r\n\r\n{\"brand\":\"b\",\"model\":\"m\",\"year\":1,\"price\":-}",
    );
    assert_eq!(st, INTERNAL_ERROR);
    assert_eq!(body, "Internal error");
    let (_, body) = handle_request(&mut s, "GET /cars/1 HTTP/1.1\r\n\r\n");
    assert_eq!(body, "{\"id\":1,\"brand\":\"A\",\"model\":\"B\",\"year\":1,\"price\":2}");
}

#[test]
fn escaped_text_round_trips_end_to_end() {
    let mut s = Store::new();
    let (st, _) = handle_request(
        &mut s,
        "POST /cars HTTP/1.1\r\n\r\n{\"brand\":\"a\\\"b\",\"model\":\"m\\\\n\",\"year\":1,\"price\":2}",
    );
    assert_eq!(st, OK_RESPONSE);
    let (_, body) = handle_request(&mut s, "GET /cars/1 HTTP/1.1\r\n\r\n");
    assert_eq!(body, "{\"id\":1,\"brand\":\"a\\\"b\",\"model\":\"m\\\\n\",\"year\":1,\"price\":2}");
}
