use meerkat_controller::dispatch::{allowed, dispatch, resolve, Routed};
use meerkat_controller::extract::{Binding, ExtractionError, Kind, Reason, Source, Value};
use meerkat_controller::request::{Request, Verb};
use meerkat_controller::response::{DomainError, HandlerOutcome, Response, ReturnShape};
use meerkat_controller::table::{RouteDescriptor, RouteTable};
use std::cell::RefCell;

fn binding(source: Source, name: &str, kind: Kind, required: bool) -> Binding {
    Binding { source, name: name.to_string(), kind, required }
}

fn route(verb: Verb, template: &str, handler: usize, bindings: Vec<Binding>) -> RouteDescriptor {
    RouteDescriptor { verb, template: template.to_string(), handler, bindings, returns: ReturnShape::Raw }
}

fn get(path: &str) -> Request {
    Request::parse("GET", path, "", vec![], vec![]).unwrap()
}

fn request(verb: &str, path: &str, query: &str) -> Request {
    Request::parse(verb, path, query, vec![], vec![]).unwrap()
}

fn cats() -> RouteTable {
    RouteTable::build(&vec![
        route(Verb::Get, "cats/:id", 0, vec![binding(Source::Path, "id", Kind::Integer, true)]),
        route(Verb::Get, "cats/special", 1, vec![]),
        route(Verb::Delete, "cats/:id", 2, vec![binding(Source::Path, "id", Kind::Integer, true)]),
        route(
            Verb::Get,
            "cats",
            3,
            vec![
                binding(Source::Query, "page", Kind::Integer, false),
                binding(Source::Query, "order", Kind::Text, false),
            ],
        ),
    ])
    .unwrap()
}

fn echo(handler: usize, arguments: Vec<Value>) -> HandlerOutcome {
    HandlerOutcome::Value(Value::Text(format!("{}:{:?}", handler, arguments)))
}

#[test]
fn the_first_declared_route_that_matches_wins() {
    let table = RouteTable::build(&vec![
        route(Verb::Get, "cats/:id", 0, vec![binding(Source::Path, "id", Kind::Text, true)]),
        route(Verb::Get, "cats/special", 1, vec![]),
    ])
    .unwrap();
    assert_eq!(
        resolve(&table, &get("/cats/special")),
        Routed::Invoke { entry: 0, arguments: vec![Value::Text("special".to_string())] }
    );
}

#[test]
fn a_literal_declared_first_wins_over_a_capture() {
    let table = RouteTable::build(&vec![
        route(Verb::Get, "cats/special", 1, vec![]),
        route(Verb::Get, "cats/:id", 0, vec![binding(Source::Path, "id", Kind::Text, true)]),
    ])
    .unwrap();
    assert_eq!(resolve(&table, &get("/cats/special")), Routed::Invoke { entry: 0, arguments: vec![] });
    assert_eq!(
        resolve(&table, &get("/cats/7")),
        Routed::Invoke { entry: 1, arguments: vec![Value::Text("7".to_string())] }
    );
}

#[test]
fn a_route_under_another_verb_is_passed_over() {
    let table = cats();
    assert_eq!(
        resolve(&table, &request("DELETE", "/cats/5", "")),
        Routed::Invoke { entry: 2, arguments: vec![Value::Integer(5)] }
    );
}

#[test]
fn an_unregistered_path_is_not_found() {
    let table = cats();
    assert_eq!(resolve(&table, &get("/dogs")), Routed::NotFound);
    assert_eq!(resolve(&table, &get("/cats/1/toys")), Routed::NotFound);
    assert_eq!(resolve(&table, &get("/")), Routed::NotFound);
    assert_eq!(dispatch(&table, &get("/dogs"), echo), Response::not_found());
    assert_eq!(dispatch(&table, &get("/dogs"), echo).status, 404);
}

#[test]
fn an_empty_table_finds_nothing() {
    let table = RouteTable::build(&vec![]).unwrap();
    assert_eq!(resolve(&table, &get("/")), Routed::NotFound);
}

#[test]
fn a_verb_that_is_not_registered_for_the_path_is_not_allowed() {
    let table = cats();
    let post = request("POST", "/cats/5", "");
    assert_eq!(resolve(&table, &post), Routed::MethodNotAllowed(vec![Verb::Get, Verb::Delete]));
    let response = dispatch(&table, &post, echo);
    assert_eq!(response.status, 405);
    assert_eq!(response.headers, vec![("Allow".to_string(), "GET, DELETE".to_string())]);
}

#[test]
fn each_allowed_verb_is_listed_once() {
    let table = cats();
    let entries = table.entries();
    assert_eq!(allowed(entries, &vec!["cats".to_string(), "special".to_string()]), vec![Verb::Get, Verb::Delete]);
    assert_eq!(allowed(entries, &vec!["cats".to_string()]), vec![Verb::Get]);
    assert_eq!(allowed(entries, &vec!["dogs".to_string()]), Vec::<Verb>::new());
}

#[test]
fn a_parameter_that_cannot_be_read_is_a_bad_request() {
    let table = cats();
    let expected = ExtractionError { name: "id".to_string(), expected: Kind::Integer, reason: Reason::Malformed };
    assert_eq!(resolve(&table, &get("/cats/abc")), Routed::BadRequest(expected));
    let response = dispatch(&table, &get("/cats/abc"), echo);
    assert_eq!(response.status, 400);
    assert_eq!(response.headers, vec![]);
    assert_eq!(response.body, "id: Malformed (expected integer)".as_bytes().to_vec());
}

#[test]
fn a_query_parameter_that_cannot_be_read_is_a_bad_request() {
    let table = cats();
    let response = dispatch(&table, &request("GET", "/cats", "page=two"), echo);
    assert_eq!(response.status, 400);
    assert_eq!(response.body, "page: Malformed (expected integer)".as_bytes().to_vec());
}

#[test]
fn a_failed_extraction_does_not_fall_through_to_a_later_route() {
    let table = RouteTable::build(&vec![
        route(Verb::Get, "cats/:id", 0, vec![binding(Source::Path, "id", Kind::Integer, true)]),
        route(Verb::Get, "cats/*rest", 1, vec![]),
    ])
    .unwrap();
    assert_eq!(dispatch(&table, &get("/cats/abc"), echo).status, 400);
}

#[test]
fn an_absent_optional_query_parameter_gives_the_handler_the_default() {
    let table = cats();
    assert_eq!(
        resolve(&table, &request("GET", "/cats", "order=asc")),
        Routed::Invoke {
            entry: 3,
            arguments: vec![Value::Integer(0), Value::Text("asc".to_string())],
        }
    );
    assert_eq!(
        resolve(&table, &get("/cats")),
        Routed::Invoke { entry: 3, arguments: vec![Value::Integer(0), Value::Text(String::new())] }
    );
}

#[test]
fn the_handler_is_called_with_its_number_and_the_arguments() {
    let table = cats();
    let calls: RefCell<Vec<(usize, Vec<Value>)>> = RefCell::new(vec![]);
    let response = dispatch(&table, &request("DELETE", "/cats/42", ""), |handler, arguments| {
        calls.borrow_mut().push((handler, arguments));
        HandlerOutcome::Value(Value::Boolean(true))
    });
    assert_eq!(response, Response { status: 200, headers: vec![], body: "true".as_bytes().to_vec() });
    assert_eq!(calls.into_inner(), vec![(2, vec![Value::Integer(42)])]);
}

#[test]
fn the_handler_is_not_called_where_no_route_is_found_or_extraction_fails() {
    let table = cats();
    let calls: RefCell<usize> = RefCell::new(0);
    for r in [get("/dogs"), request("POST", "/cats/1", ""), get("/cats/abc")] {
        dispatch(&table, &r, |_, _| {
            *calls.borrow_mut() += 1;
            HandlerOutcome::Value(Value::Integer(0))
        });
    }
    assert_eq!(calls.into_inner(), 0);
}

#[test]
fn the_answer_follows_the_declared_shape_of_the_route() {
    let mut fallible = route(Verb::Get, "fallible", 0, vec![]);
    fallible.returns = ReturnShape::Fallible;
    let mut described = route(Verb::Get, "described", 1, vec![]);
    described.returns = ReturnShape::Described;
    let table = RouteTable::build(&vec![fallible, described, route(Verb::Get, "raw", 2, vec![])]).unwrap();
    let conflict = |_: usize, _: Vec<Value>| {
        HandlerOutcome::Failure(DomainError::Mapped { status: 409, body: "taken".as_bytes().to_vec() })
    };
    assert_eq!(
        dispatch(&table, &get("/fallible"), conflict),
        Response { status: 409, headers: vec![], body: "taken".as_bytes().to_vec() }
    );
    assert_eq!(dispatch(&table, &get("/raw"), conflict), Response::internal_error());
    let unmapped = |_: usize, _: Vec<Value>| {
        HandlerOutcome::Failure(DomainError::Unmapped { detail: "secret".to_string() })
    };
    assert_eq!(dispatch(&table, &get("/fallible"), unmapped).status, 500);
    assert_eq!(dispatch(&table, &get("/fallible"), unmapped).body, "Internal Server Error".as_bytes().to_vec());
    let made = Response { status: 204, headers: vec![("X".to_string(), "y".to_string())], body: vec![] };
    let give = |_: usize, _: Vec<Value>| HandlerOutcome::Described(made.clone());
    assert_eq!(dispatch(&table, &get("/described"), give), made);
}

#[test]
fn a_wildcard_route_hands_the_rest_of_the_path_to_the_handler() {
    let table = RouteTable::build(&vec![route(
        Verb::Get,
        "files/*path",
        0,
        vec![binding(Source::Path, "path", Kind::Text, true)],
    )])
    .unwrap();
    assert_eq!(
        resolve(&table, &get("/files/a/b.txt")),
        Routed::Invoke { entry: 0, arguments: vec![Value::Text("a/b.txt".to_string())] }
    );
}
