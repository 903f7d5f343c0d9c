use vstd::prelude::*;
use crate::codec::{
    get_id, match_at, parse_request, spec_body, spec_id_of, spec_method, spec_path, starts_with_at,
    str_eq, INTERNAL_ERROR, NOT_FOUND, OK_RESPONSE,
};
use crate::json::{
    car_matches_text, json_of_car, json_of_rows, parse_car, spec_parse_car, spec_parse_i32,
    to_json_car, to_json_cars, CarText,
};
use crate::store::{contains_id, find_row, Store};
use crate::vehicle::Car;

verus! {

/// The id an id text denotes: the whole text must be an optional sign
/// (`+` or `-`) and digits — leading zeros allowed, as std's integer
/// parsing has it — with a value that fits a 32-bit signed integer.
pub open spec fn spec_parse_id(s: Seq<char>) -> Option<i32> {
    let start: int = if s.len() > 0 && s[0] == '+' {
        if s.len() > 1 && s[1] != '-' {
            1
        } else {
            -1
        }
    } else {
        0
    };
    if start < 0 {
        None
    } else {
        match spec_parse_i32(s, start) {
            Some((v, e)) => if e == s.len() {
                Some(v as i32)
            } else {
                None
            },
            None => None,
        }
    }
}

/// Decode an id text.
pub fn parse_id(s: &str) -> (r: Option<i32>)
    ensures
        r == spec_parse_id(s@),
{
    let n = s.unicode_len();
    let start: usize = if n > 0 && s.get_char(0) == '+' {
        if n > 1 && s.get_char(1) != '-' {
            1
        } else {
            return None;
        }
    } else {
        0
    };
    match crate::json::parse_i32_at(s, start) {
        Some((v, e)) => if e == n {
            Some(v)
        } else {
            None
        },
        None => None,
    }
}

/// The request asks to create: method `POST`, path starting with `/cars`.
pub open spec fn route_create(raw: Seq<char>) -> bool {
    spec_method(raw) == "POST"@ && match_at(spec_path(raw), 0, "/cars"@)
}

/// The request asks for one row: method `GET`, path starting with `/cars/`.
pub open spec fn route_get_one(raw: Seq<char>) -> bool {
    spec_method(raw) == "GET"@ && match_at(spec_path(raw), 0, "/cars/"@)
}

/// The request asks for all rows: method `GET`, path starting with `/cars`
/// but not with `/cars/`.
pub open spec fn route_get_all(raw: Seq<char>) -> bool {
    spec_method(raw) == "GET"@ && match_at(spec_path(raw), 0, "/cars"@) && !match_at(
        spec_path(raw),
        0,
        "/cars/"@,
    )
}

/// The request asks to update: method `PUT`, path starting with `/cars/`.
pub open spec fn route_update(raw: Seq<char>) -> bool {
    spec_method(raw) == "PUT"@ && match_at(spec_path(raw), 0, "/cars/"@)
}

/// The request asks to delete: method `DELETE`, path starting with `/cars/`.
pub open spec fn route_delete(raw: Seq<char>) -> bool {
    spec_method(raw) == "DELETE"@ && match_at(spec_path(raw), 0, "/cars/"@)
}

/// The request matches no route.
pub open spec fn route_none(raw: Seq<char>) -> bool {
    &&& !route_create(raw)
    &&& !route_get_one(raw)
    &&& !route_get_all(raw)
    &&& !route_update(raw)
    &&& !route_delete(raw)
}

/// What handling a create request does.  A well-formed body appends exactly
/// one row — the body's fields under the next identifier — leaves every
/// other row unchanged, and reports success; a malformed body leaves the
/// store unchanged and reports the generic internal error.
pub open spec fn created_effect(
    rows0: Seq<Car>,
    next0: i32,
    body: Seq<char>,
    rows1: Seq<Car>,
    next1: int,
    status: Seq<char>,
    content: Seq<char>,
) -> bool {
    match spec_parse_car(body) {
        Some(t) => {
            &&& rows1.len() == rows0.len() + 1
            &&& forall|k: int| 0 <= k < rows0.len() ==> rows1[k] == rows0[k]
            &&& car_matches_text(
                rows1.last(),
                (CarText {
                    id: Some(next0),
                    brand: t.brand,
                    model: t.model,
                    year: t.year,
                    price: t.price,
                }),
            )
            &&& next1 == next0 + 1
            &&& status == OK_RESPONSE@
            &&& content == "Car created"@
        },
        None => {
            &&& rows1 == rows0
            &&& next1 == next0 as int
            &&& status == INTERNAL_ERROR@
            &&& content == "Internal error"@
        },
    }
}

/// What handling a single-row lookup returns.  A well-formed id yields the
/// stored row as JSON, or the not-found response when no row carries it; a
/// malformed id yields the generic internal error.  The store is never
/// changed.
pub open spec fn get_one_effect(
    rows: Seq<Car>,
    path: Seq<char>,
    status: Seq<char>,
    content: Seq<char>,
) -> bool {
    match spec_parse_id(spec_id_of(path)) {
        Some(id) => match find_row(rows, id) {
            Some(j) => status == OK_RESPONSE@ && content == json_of_car(rows[j]),
            None => status == NOT_FOUND@ && content == "Car not found"@,
        },
        None => status == INTERNAL_ERROR@ && content == "Internal error"@,
    }
}

/// What handling a full scan returns: all stored rows as a JSON array.
pub open spec fn get_all_effect(rows: Seq<Car>, status: Seq<char>, content: Seq<char>) -> bool {
    status == OK_RESPONSE@ && content == json_of_rows(rows)
}

/// What handling an update request does.  A well-formed id and body replace
/// the fields of every row carrying the id — an absent id changes nothing
/// but still reports success, and no row is added or removed; a malformed id
/// or body leaves the store unchanged and reports the generic internal
/// error.
pub open spec fn updated_effect(
    rows0: Seq<Car>,
    path: Seq<char>,
    body: Seq<char>,
    rows1: Seq<Car>,
    status: Seq<char>,
    content: Seq<char>,
) -> bool {
    match (spec_parse_id(spec_id_of(path)), spec_parse_car(body)) {
        (Some(id), Some(t)) => {
            &&& rows1.len() == rows0.len()
            &&& forall|k: int|
                0 <= k < rows0.len() ==> if rows0[k].id == Some(id) {
                    car_matches_text(
                        rows1[k],
                        (CarText {
                            id: Some(id),
                            brand: t.brand,
                            model: t.model,
                            year: t.year,
                            price: t.price,
                        }),
                    )
                } else {
                    rows1[k] == rows0[k]
                }
            &&& status == OK_RESPONSE@
            &&& content == "Car updated"@
        },
        _ => {
            &&& rows1 == rows0
            &&& status == INTERNAL_ERROR@
            &&& content == "Internal error"@
        },
    }
}

/// What handling a delete request does.  A well-formed stored id removes
/// exactly that row and reports success; a well-formed absent id changes
/// nothing and reports not-found; a malformed id changes nothing and
/// reports the generic internal error.
pub open spec fn deleted_effect(
    rows0: Seq<Car>,
    path: Seq<char>,
    rows1: Seq<Car>,
    status: Seq<char>,
    content: Seq<char>,
) -> bool {
    match spec_parse_id(spec_id_of(path)) {
        Some(id) => match find_row(rows0, id) {
            Some(j) => {
                &&& rows1 == rows0.remove(j)
                &&& !contains_id(rows1, id)
                &&& status == OK_RESPONSE@
                &&& content == "Car deleted"@
            },
            None => {
                &&& rows1 == rows0
                &&& status == NOT_FOUND@
                &&& content == "Car not found"@
            },
        },
        None => {
            &&& rows1 == rows0
            &&& status == INTERNAL_ERROR@
            &&& content == "Internal error"@
        },
    }
}

/// Where a request is routed.
pub enum Route {
    Create,
    GetOne,
    GetAll,
    Update,
    Delete,
    NoMatch,
}

/// Route a method and path, in the fixed priority order: create, single
/// lookup, full scan, update, delete; anything else matches no route.
pub fn route_of(method: &str, path: &str) -> (r: Route)
    ensures
        r is Create <==> method@ == "POST"@ && match_at(path@, 0, "/cars"@),
        r is GetOne <==> method@ == "GET"@ && match_at(path@, 0, "/cars/"@),
        r is GetAll <==> method@ == "GET"@ && match_at(path@, 0, "/cars"@) && !match_at(
            path@,
            0,
            "/cars/"@,
        ),
        r is Update <==> method@ == "PUT"@ && match_at(path@, 0, "/cars/"@),
        r is Delete <==> method@ == "DELETE"@ && match_at(path@, 0, "/cars/"@),
{
    proof {
        reveal_strlit("POST");
        reveal_strlit("GET");
        reveal_strlit("PUT");
        reveal_strlit("DELETE");
        assert("POST"@.len() == 4);
        assert("GET"@.len() == 3);
        assert("PUT"@.len() == 3);
        assert("DELETE"@.len() == 6);
        assert("POST"@ != "GET"@);
        assert("POST"@ != "PUT"@);
        assert("POST"@ != "DELETE"@);
        assert("GET"@[0] != "PUT"@[0]);
        assert("GET"@ != "PUT"@);
        assert("GET"@ != "DELETE"@);
        assert("PUT"@ != "DELETE"@);
    }
    let is_post = str_eq(method, "POST");
    let is_get = str_eq(method, "GET");
    let is_put = str_eq(method, "PUT");
    let is_delete = str_eq(method, "DELETE");
    let cars_pref = starts_with_at(path, 0, "/cars");
    let cars_slash = starts_with_at(path, 0, "/cars/");
    if is_post && cars_pref {
        Route::Create
    } else if is_get && cars_slash {
        Route::GetOne
    } else if is_get && cars_pref {
        Route::GetAll
    } else if is_put && cars_slash {
        Route::Update
    } else if is_delete && cars_slash {
        Route::Delete
    } else {
        Route::NoMatch
    }
}

/// The reply for a single-row lookup's outcome: the row as JSON, or the
/// not-found reply when the store held none.
pub fn found_car_response(car: Option<&Car>) -> (resp: (String, String))
    ensures
        match car {
            Some(c) => resp.0@ == OK_RESPONSE@ && resp.1@ == json_of_car(*c),
            None => resp.0@ == NOT_FOUND@ && resp.1@ == "Car not found"@,
        },
{
    match car {
        Some(c) => (OK_RESPONSE.to_owned(), to_json_car(c)),
        None => (NOT_FOUND.to_owned(), "Car not found".to_owned()),
    }
}

/// The reply for a delete's affected-row count: zero rows means the id was
/// absent and the reply is not-found, anything else is success.
pub fn delete_count_response(rows_affected: u64) -> (resp: (String, String))
    ensures
        rows_affected == 0 ==> resp.0@ == NOT_FOUND@ && resp.1@ == "Car not found"@,
        rows_affected != 0 ==> resp.0@ == OK_RESPONSE@ && resp.1@ == "Car deleted"@,
{
    if rows_affected == 0 {
        (NOT_FOUND.to_owned(), "Car not found".to_owned())
    } else {
        (OK_RESPONSE.to_owned(), "Car deleted".to_owned())
    }
}

/// The reply for a request no route matches.
pub fn no_route_response() -> (resp: (String, String))
    ensures
        resp.0@ == NOT_FOUND@ && resp.1@ == "404 not found"@,
{
    (NOT_FOUND.to_owned(), "404 not found".to_owned())
}

/// Handle a create request body against the store.
pub fn handle_post(store: &mut Store, body: &str) -> (resp: (String, String))
    requires
        old(store).wf(),
        old(store).next_id < i32::MAX,
    ensures
        final(store).wf(),
        created_effect(
            old(store).rows@,
            old(store).next_id,
            body@,
            final(store).rows@,
            final(store).next_id as int,
            resp.0@,
            resp.1@,
        ),
{
    match parse_car(body) {
        Some(car) => {
            store.create(car);
            (OK_RESPONSE.to_owned(), "Car created".to_owned())
        },
        None => (INTERNAL_ERROR.to_owned(), "Internal error".to_owned()),
    }
}

/// Handle a single-row lookup against the store.
pub fn handle_get_one(store: &Store, path: &str) -> (resp: (String, String))
    ensures
        get_one_effect(store.rows@, path@, resp.0@, resp.1@),
{
    let id_text = get_id(path);
    match parse_id(id_text.as_str()) {
        Some(id) => {
            let row = store.get_one(id);
            proof {
                crate::store::lemma_find_row_some_iff(store.rows@, id, 0);
            }
            found_car_response(row)
        },
        None => (INTERNAL_ERROR.to_owned(), "Internal error".to_owned()),
    }
}

/// Handle a full scan against the store.
pub fn handle_get_all(store: &Store) -> (resp: (String, String))
    ensures
        get_all_effect(store.rows@, resp.0@, resp.1@),
{
    (OK_RESPONSE.to_owned(), to_json_cars(store.get_all()))
}

/// Handle an update request against the store.
pub fn handle_put(store: &mut Store, path: &str, body: &str) -> (resp: (String, String))
    requires
        old(store).wf(),
    ensures
        final(store).wf(),
        final(store).next_id == old(store).next_id,
        updated_effect(old(store).rows@, path@, body@, final(store).rows@, resp.0@, resp.1@),
{
    let id_text = get_id(path);
    let id_opt = parse_id(id_text.as_str());
    let car_opt = parse_car(body);
    match (id_opt, car_opt) {
        (Some(id), Some(car)) => {
            store.update(id, car);
            (OK_RESPONSE.to_owned(), "Car updated".to_owned())
        },
        _ => (INTERNAL_ERROR.to_owned(), "Internal error".to_owned()),
    }
}

/// Handle a delete request against the store.
pub fn handle_delete(store: &mut Store, path: &str) -> (resp: (String, String))
    requires
        old(store).wf(),
    ensures
        final(store).wf(),
        final(store).next_id == old(store).next_id,
        deleted_effect(old(store).rows@, path@, final(store).rows@, resp.0@, resp.1@),
{
    let id_text = get_id(path);
    match parse_id(id_text.as_str()) {
        Some(id) => {
            let n = store.delete(id);
            delete_count_response(n)
        },
        None => (INTERNAL_ERROR.to_owned(), "Internal error".to_owned()),
    }
}

/// Dispatch one raw request against the store: decode it, route it in fixed
/// priority order, run the matched handler, and hand back the status
/// preamble and payload of the reply.  No route matches: the not-found
/// reply.
pub fn handle_request(store: &mut Store, raw: &str) -> (resp: (String, String))
    requires
        old(store).wf(),
        old(store).next_id < i32::MAX,
    ensures
        final(store).wf(),
        route_create(raw@) ==> created_effect(
            old(store).rows@,
            old(store).next_id,
            spec_body(raw@),
            final(store).rows@,
            final(store).next_id as int,
            resp.0@,
            resp.1@,
        ),
        route_get_one(raw@) ==> *final(store) == *old(store) && get_one_effect(
            old(store).rows@,
            spec_path(raw@),
            resp.0@,
            resp.1@,
        ),
        route_get_all(raw@) ==> *final(store) == *old(store) && get_all_effect(
            old(store).rows@,
            resp.0@,
            resp.1@,
        ),
        route_update(raw@) ==> final(store).next_id == old(store).next_id && updated_effect(
            old(store).rows@,
            spec_path(raw@),
            spec_body(raw@),
            final(store).rows@,
            resp.0@,
            resp.1@,
        ),
        route_delete(raw@) ==> final(store).next_id == old(store).next_id && deleted_effect(
            old(store).rows@,
            spec_path(raw@),
            final(store).rows@,
            resp.0@,
            resp.1@,
        ),
        route_none(raw@) ==> *final(store) == *old(store) && resp.0@ == NOT_FOUND@ && resp.1@
            == "404 not found"@,
{
    let req = parse_request(raw);
    match route_of(req.method.as_str(), req.path.as_str()) {
        Route::Create => handle_post(store, req.body.as_str()),
        Route::GetOne => handle_get_one(store, req.path.as_str()),
        Route::GetAll => handle_get_all(store),
        Route::Update => handle_put(store, req.path.as_str(), req.body.as_str()),
        Route::Delete => handle_delete(store, req.path.as_str()),
        Route::NoMatch => no_route_response(),
    }
}

/// A malformed create or update body is answered with the generic internal
/// error, never with success, and leaves the rows exactly as they were.
pub proof fn lemma_malformed_body_rejected(
    rows0: Seq<Car>,
    next0: i32,
    path: Seq<char>,
    body: Seq<char>,
    rows1: Seq<Car>,
    next1: int,
    status: Seq<char>,
    content: Seq<char>,
)
    requires
        spec_parse_car(body) is None,
        created_effect(rows0, next0, body, rows1, next1, status, content) || updated_effect(
            rows0,
            path,
            body,
            rows1,
            status,
            content,
        ),
    ensures
        rows1 == rows0,
        status == INTERNAL_ERROR@,
        content == "Internal error"@,
        status != OK_RESPONSE@,
{
    reveal_strlit("HTTP/1.1 200 OK\r\nContent-Type: application/json\r\n\r\n");
    reveal_strlit("HTTP/1.1 500 INTERNAL ERROR\r\n\r\n");
    assert(OK_RESPONSE@.len() != INTERNAL_ERROR@.len());
}

} // verus!
