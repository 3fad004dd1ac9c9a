use meerkat_controller::extract::{ExtractionError, Kind, Reason, Value};
use meerkat_controller::request::Verb;
use meerkat_controller::response::{
    render_value, DomainError, HandlerOutcome, Response, ReturnShape,
};

fn plain(status: u16, body: &str) -> Response {
    Response { status, headers: vec![], body: body.as_bytes().to_vec() }
}

#[test]
fn values_are_rendered_as_bytes() {
    assert_eq!(render_value(&Value::Integer(-120)), "-120".as_bytes().to_vec());
    assert_eq!(render_value(&Value::Text("héllo".to_string())), "héllo".as_bytes().to_vec());
    assert_eq!(render_value(&Value::Boolean(true)), "true".as_bytes().to_vec());
    assert_eq!(
        render_value(&Value::Uuid(0x123e4567_e89b_12d3_a456_426614174000)),
        "123e4567-e89b-12d3-a456-426614174000".as_bytes().to_vec()
    );
    assert_eq!(render_value(&Value::Bytes(vec![0, 255])), vec![0, 255]);
}

#[test]
fn the_fixed_answers() {
    assert_eq!(Response::not_found(), plain(404, "Not Found"));
    assert_eq!(Response::internal_error(), plain(500, "Internal Server Error"));
}

#[test]
fn method_not_allowed_lists_the_verbs() {
    let response = Response::method_not_allowed(&vec![Verb::Get, Verb::Delete]);
    assert_eq!(response.status, 405);
    assert_eq!(response.headers, vec![("Allow".to_string(), "GET, DELETE".to_string())]);
    assert_eq!(response.body, "Method Not Allowed".as_bytes().to_vec());
    let one = Response::method_not_allowed(&vec![Verb::Post]);
    assert_eq!(one.headers, vec![("Allow".to_string(), "POST".to_string())]);
    let three = Response::method_not_allowed(&vec![Verb::Put, Verb::Patch, Verb::Options]);
    assert_eq!(three.headers, vec![("Allow".to_string(), "PUT, PATCH, OPTIONS".to_string())]);
}

#[test]
fn bad_request_names_the_parameter_and_the_reason() {
    let error = ExtractionError {
        name: "id".to_string(),
        expected: Kind::Integer,
        reason: Reason::Malformed,
    };
    assert_eq!(error.message(), "id: Malformed (expected integer)");
    assert_eq!(Response::bad_request(&error), plain(400, "id: Malformed (expected integer)"));
    let missing = ExtractionError {
        name: "blob".to_string(),
        expected: Kind::Bytes,
        reason: Reason::Missing,
    };
    assert_eq!(missing.message(), "blob: Missing (expected bytes)");
    let mismatch = ExtractionError {
        name: "tag".to_string(),
        expected: Kind::Uuid,
        reason: Reason::TypeMismatch,
    };
    assert_eq!(mismatch.message(), "tag: TypeMismatch (expected uuid)");
}

#[test]
fn names_of_kinds_and_reasons() {
    assert_eq!(Kind::Integer.as_str(), "integer");
    assert_eq!(Kind::Text.as_str(), "text");
    assert_eq!(Kind::Uuid.as_str(), "uuid");
    assert_eq!(Kind::Boolean.as_str(), "boolean");
    assert_eq!(Kind::Bytes.as_str(), "bytes");
    assert_eq!(Reason::Missing.as_str(), "Missing");
    assert_eq!(Reason::Malformed.as_str(), "Malformed");
    assert_eq!(Reason::TypeMismatch.as_str(), "TypeMismatch");
}

#[test]
fn a_raw_value_becomes_a_200() {
    assert_eq!(
        Response::from_outcome(ReturnShape::Raw, HandlerOutcome::Value(Value::Integer(7))),
        plain(200, "7")
    );
    assert_eq!(
        Response::from_outcome(
            ReturnShape::Fallible,
            HandlerOutcome::Value(Value::Text("Cat no.3".to_string()))
        ),
        plain(200, "Cat no.3")
    );
}

#[test]
fn a_mapped_error_becomes_its_status_and_body() {
    let outcome = HandlerOutcome::Failure(DomainError::Mapped {
        status: 409,
        body: "taken".as_bytes().to_vec(),
    });
    assert_eq!(Response::from_outcome(ReturnShape::Fallible, outcome), plain(409, "taken"));
}

#[test]
fn an_unmapped_error_becomes_a_500_without_detail() {
    let outcome = HandlerOutcome::Failure(DomainError::Unmapped {
        detail: "connection to db-7 lost".to_string(),
    });
    assert_eq!(
        Response::from_outcome(ReturnShape::Fallible, outcome),
        plain(500, "Internal Server Error")
    );
}

#[test]
fn a_described_response_is_handed_on() {
    let made = Response {
        status: 201,
        headers: vec![("Location".to_string(), "/cats/9".to_string())],
        body: vec![1, 2],
    };
    assert_eq!(
        Response::from_outcome(ReturnShape::Described, HandlerOutcome::Described(made.clone())),
        made
    );
}

#[test]
fn what_the_declared_shape_does_not_allow_becomes_a_500() {
    let error = HandlerOutcome::Failure(DomainError::Mapped { status: 409, body: vec![] });
    assert_eq!(Response::from_outcome(ReturnShape::Raw, error), Response::internal_error());
    let made = Response { status: 201, headers: vec![], body: vec![] };
    assert_eq!(
        Response::from_outcome(ReturnShape::Raw, HandlerOutcome::Described(made.clone())),
        Response::internal_error()
    );
    assert_eq!(
        Response::from_outcome(ReturnShape::Fallible, HandlerOutcome::Described(made)),
        Response::internal_error()
    );
    assert_eq!(
        Response::from_outcome(ReturnShape::Described, HandlerOutcome::Value(Value::Integer(1))),
        Response::internal_error()
    );
}
