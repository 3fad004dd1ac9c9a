//! Responses, what a handler may return, and the conversion of the one into
//! the other.
use vstd::prelude::*;
use vstd::utf8::encode_utf8;
use crate::extract::{
    copy_bytes, ExtractionError, ExtractionErrorModel, Kind, Reason, Value, ValueModel,
};
use crate::request::Verb;
use crate::scalar::{
    boolean_text, integer_text, uuid_text, write_boolean, write_integer, write_uuid,
};

verus! {

/// A response: status code, headers and body.
#[derive(Clone, Debug, PartialEq, Eq)]
pub struct Response {
    pub status: u16,
    pub headers: Vec<(String, String)>,
    pub body: Vec<u8>,
}

/// The mathematical form of a [`Response`].
pub struct ResponseModel {
    pub status: u16,
    pub headers: Seq<(Seq<char>, Seq<char>)>,
    pub body: Seq<u8>,
}

impl View for Response {
    type V = ResponseModel;

    open spec fn view(&self) -> ResponseModel {
        ResponseModel { status: self.status, headers: self.headers.deep_view(), body: self.body@ }
    }
}

/// What a handler is declared to return.
#[derive(Clone, Copy, Debug, PartialEq, Eq, Structural)]
pub enum ReturnShape {
    /// A value.
    Raw,
    /// A value or an error of the application.
    Fallible,
    /// A response of the handler's own making.
    Described,
}

/// An error that a handler signals.
#[derive(Clone, Debug, PartialEq, Eq)]
pub enum DomainError {
    /// An error that says how it is to be answered.
    Mapped { status: u16, body: Vec<u8> },
    /// Any other error. Its detail is for the log and never reaches the client.
    Unmapped { detail: String },
}

/// The mathematical form of a [`DomainError`].
pub enum DomainErrorModel {
    Mapped { status: u16, body: Seq<u8> },
    Unmapped { detail: Seq<char> },
}

impl View for DomainError {
    type V = DomainErrorModel;

    open spec fn view(&self) -> DomainErrorModel {
        match self {
            DomainError::Mapped { status, body } => DomainErrorModel::Mapped {
                status: *status,
                body: body@,
            },
            DomainError::Unmapped { detail } => DomainErrorModel::Unmapped { detail: detail@ },
        }
    }
}

/// What a handler returned.
#[derive(Clone, Debug, PartialEq, Eq)]
pub enum HandlerOutcome {
    Value(Value),
    Failure(DomainError),
    Described(Response),
}

/// The mathematical form of a [`HandlerOutcome`].
pub enum HandlerOutcomeModel {
    Value(ValueModel),
    Failure(DomainErrorModel),
    Described(ResponseModel),
}

impl View for HandlerOutcome {
    type V = HandlerOutcomeModel;

    open spec fn view(&self) -> HandlerOutcomeModel {
        match self {
            HandlerOutcome::Value(v) => HandlerOutcomeModel::Value(v@),
            HandlerOutcome::Failure(e) => HandlerOutcomeModel::Failure(e@),
            HandlerOutcome::Described(r) => HandlerOutcomeModel::Described(r@),
        }
    }
}

/// A value as the bytes of a body: text in UTF-8, numbers and truth values
/// in their written form, bytes as they are.
pub open spec fn value_bytes(value: ValueModel) -> Seq<u8> {
    match value {
        ValueModel::Integer(v) => encode_utf8(integer_text(v)),
        ValueModel::Text(t) => encode_utf8(t),
        ValueModel::Uuid(u) => encode_utf8(uuid_text(u)),
        ValueModel::Boolean(b) => encode_utf8(boolean_text(b)),
        ValueModel::Bytes(b) => b,
    }
}

/// A response without headers whose body is a text.
pub open spec fn plain(status: u16, text: Seq<char>) -> ResponseModel {
    ResponseModel {
        status,
        headers: Seq::<(Seq<char>, Seq<char>)>::empty(),
        body: encode_utf8(text),
    }
}

/// The answer to a request whose path no route matches.
pub open spec fn not_found() -> ResponseModel {
    plain(404, "Not Found"@)
}

/// The answer where the handler failed in a way that has no mapping, or
/// returned what its declared shape does not allow.
pub open spec fn internal_error() -> ResponseModel {
    plain(500, "Internal Server Error"@)
}

/// The verbs as they are listed in an `Allow` header: `GET, DELETE`.
pub open spec fn allow_text(verbs: Seq<Verb>) -> Seq<char>
    decreases verbs.len(),
{
    if verbs.len() == 0 {
        Seq::<char>::empty()
    } else if verbs.len() == 1 {
        verbs[0].name()
    } else {
        allow_text(verbs.drop_last()) + ", "@ + verbs.last().name()
    }
}

/// The answer to a request whose path is routed, but not for its verb.
pub open spec fn method_not_allowed(verbs: Seq<Verb>) -> ResponseModel {
    ResponseModel {
        status: 405,
        headers: seq![("Allow"@, allow_text(verbs))],
        body: encode_utf8("Method Not Allowed"@),
    }
}

/// The name of a reason as it is written in the body of a `400`.
pub open spec fn reason_text(reason: Reason) -> Seq<char> {
    match reason {
        Reason::Missing => "Missing"@,
        Reason::Malformed => "Malformed"@,
        Reason::TypeMismatch => "TypeMismatch"@,
    }
}

/// The name of a type as it is written in the body of a `400`.
pub open spec fn kind_text(kind: Kind) -> Seq<char> {
    match kind {
        Kind::Integer => "integer"@,
        Kind::Text => "text"@,
        Kind::Uuid => "uuid"@,
        Kind::Boolean => "boolean"@,
        Kind::Bytes => "bytes"@,
    }
}

/// The message of a failed extraction: `id: Malformed (expected integer)`.
pub open spec fn failure_text(error: ExtractionErrorModel) -> Seq<char> {
    error.name + ": "@ + reason_text(error.reason) + " (expected "@ + kind_text(error.expected)
        + ")"@
}

/// The answer to a request from which a parameter could not be extracted.
pub open spec fn bad_request(error: ExtractionErrorModel) -> ResponseModel {
    plain(400, failure_text(error))
}

/// The answer that carries a value.
pub open spec fn ok(value: ValueModel) -> ResponseModel {
    ResponseModel {
        status: 200,
        headers: Seq::<(Seq<char>, Seq<char>)>::empty(),
        body: value_bytes(value),
    }
}

/// The response that what a handler returned is converted to.
///
/// A value becomes a `200` with the value as its body. An error with a
/// mapping becomes the status and body it names; one without becomes a `500`
/// that says nothing of the error. A response of the handler's own making is
/// handed on. What the declared shape does not allow is answered like an
/// error without a mapping.
pub open spec fn spec_respond(shape: ReturnShape, outcome: HandlerOutcomeModel) -> ResponseModel {
    match (shape, outcome) {
        (ReturnShape::Raw, HandlerOutcomeModel::Value(v)) => ok(v),
        (ReturnShape::Fallible, HandlerOutcomeModel::Value(v)) => ok(v),
        (
            ReturnShape::Fallible,
            HandlerOutcomeModel::Failure(DomainErrorModel::Mapped { status, body }),
        ) => ResponseModel { status, headers: Seq::<(Seq<char>, Seq<char>)>::empty(), body },
        (ReturnShape::Described, HandlerOutcomeModel::Described(r)) => r,
        _ => internal_error(),
    }
}

/// A response without headers whose body is the given text.
fn plain_response(status: u16, text: &str) -> (response: Response)
    ensures
        response@ == plain(status, text@),
{
    bare(status, text.as_bytes_vec())
}

/// A response without headers.
fn bare(status: u16, body: Vec<u8>) -> (response: Response)
    ensures
        response@ == (ResponseModel {
            status,
            headers: Seq::<(Seq<char>, Seq<char>)>::empty(),
            body: body@,
        }),
{
    let headers: Vec<(String, String)> = Vec::new();
    assert(headers.deep_view() == Seq::<(Seq<char>, Seq<char>)>::empty());
    Response { status, headers, body }
}

/// Writes a value as the bytes of a body.
pub fn render_value(value: &Value) -> (bytes: Vec<u8>)
    ensures
        bytes@ == value_bytes(value@),
{
    match value {
        Value::Integer(v) => write_integer(*v).as_str().as_bytes_vec(),
        Value::Text(t) => t.as_str().as_bytes_vec(),
        Value::Uuid(u) => write_uuid(*u).as_str().as_bytes_vec(),
        Value::Boolean(b) => write_boolean(*b).as_str().as_bytes_vec(),
        Value::Bytes(b) => copy_bytes(b),
    }
}

impl Reason {
    /// The name of the reason.
    pub fn as_str(self) -> (text: &'static str)
        ensures
            text@ == reason_text(self),
    {
        match self {
            Reason::Missing => "Missing",
            Reason::Malformed => "Malformed",
            Reason::TypeMismatch => "TypeMismatch",
        }
    }
}

impl Kind {
    /// The name of the type.
    pub fn as_str(self) -> (text: &'static str)
        ensures
            text@ == kind_text(self),
    {
        match self {
            Kind::Integer => "integer",
            Kind::Text => "text",
            Kind::Uuid => "uuid",
            Kind::Boolean => "boolean",
            Kind::Bytes => "bytes",
        }
    }
}

impl ExtractionError {
    /// The failure in words: the parameter, the reason and the expected type.
    pub fn message(&self) -> (text: String)
        ensures
            text@ == failure_text(self@),
    {
        let mut text = self.name.clone();
        text.append(": ");
        text.append(self.reason.as_str());
        text.append(" (expected ");
        text.append(self.expected.as_str());
        text.append(")");
        text
    }
}

impl Response {
    /// The answer to a request whose path no route matches.
    pub fn not_found() -> (response: Response)
        ensures
            response@ == not_found(),
    {
        plain_response(404, "Not Found")
    }

    /// The answer where nothing of the failure is to reach the client.
    pub fn internal_error() -> (response: Response)
        ensures
            response@ == internal_error(),
    {
        plain_response(500, "Internal Server Error")
    }

    /// The answer to a request whose path is routed, but not for its verb.
    pub fn method_not_allowed(verbs: &Vec<Verb>) -> (response: Response)
        ensures
            response@ == method_not_allowed(verbs@),
    {
        let mut listed = String::new();
        let mut i: usize = 0;
        assert(verbs@.take(0) == Seq::<Verb>::empty());
        while i < verbs.len()
            invariant
                i <= verbs.len(),
                listed@ == allow_text(verbs@.take(i as int)),
            decreases verbs.len() - i,
        {
            proof {
                assert(verbs@.take(i + 1).drop_last() == verbs@.take(i as int));
                assert(verbs@.take(i + 1).last() == verbs@[i as int]);
            }
            if i > 0 {
                listed.append(", ");
            }
            listed.append(verbs[i].as_str());
            i = i + 1;
        }
        assert(verbs@.take(i as int) == verbs@);
        let mut headers: Vec<(String, String)> = Vec::new();
        headers.push(("Allow".to_owned(), listed));
        assert(headers.deep_view() == seq![("Allow"@, allow_text(verbs@))]);
        Response { status: 405, headers, body: "Method Not Allowed".as_bytes_vec() }
    }

    /// The answer to a request from which a parameter could not be extracted.
    pub fn bad_request(error: &ExtractionError) -> (response: Response)
        ensures
            response@ == bad_request(error@),
    {
        plain_response(400, error.message().as_str())
    }

    /// Converts what a handler returned into the response.
    pub fn from_outcome(shape: ReturnShape, outcome: HandlerOutcome) -> (response: Response)
        ensures
            response@ == spec_respond(shape, outcome@),
    {
        match (shape, outcome) {
            (ReturnShape::Raw, HandlerOutcome::Value(v)) => bare(200, render_value(&v)),
            (ReturnShape::Fallible, HandlerOutcome::Value(v)) => bare(200, render_value(&v)),
            (ReturnShape::Fallible, HandlerOutcome::Failure(DomainError::Mapped { status, body })) => {
                bare(status, body)
            },
            (ReturnShape::Described, HandlerOutcome::Described(r)) => r,
            _ => Response::internal_error(),
        }
    }
}

} // verus!
