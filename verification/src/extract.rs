//! Parameter bindings and the extraction of typed values from a request.
use vstd::prelude::*;
use vstd::utf8::{decode_utf8, encode_utf8, valid_utf8};
use crate::request::{find_all, find_first, first_value, values_for, Request, RequestModel};
use crate::scalar::{
    parse_boolean, parse_integer, parse_uuid, spec_parse_boolean, spec_parse_integer,
    spec_parse_uuid,
};

verus! {

/// Where a parameter comes from.
#[derive(Clone, Copy, Debug, PartialEq, Eq, Structural)]
pub enum Source {
    Path,
    Query,
    Body,
    Header,
}

/// The type that a parameter is declared with.
#[derive(Clone, Copy, Debug, PartialEq, Eq, Structural)]
pub enum Kind {
    Integer,
    Text,
    Uuid,
    Boolean,
    Bytes,
}

/// Why an extraction failed.
#[derive(Clone, Copy, Debug, PartialEq, Eq, Structural)]
pub enum Reason {
    /// The request does not hold the parameter, and it is required.
    Missing,
    /// What the request holds cannot be read as the declared type.
    Malformed,
    /// The request holds several values where one is declared.
    TypeMismatch,
}

/// One declared parameter of a handler.
#[derive(Clone, Debug, PartialEq, Eq)]
pub struct Binding {
    pub source: Source,
    pub name: String,
    pub kind: Kind,
    pub required: bool,
}

/// The mathematical form of a [`Binding`].
pub struct BindingModel {
    pub source: Source,
    pub name: Seq<char>,
    pub kind: Kind,
    pub required: bool,
}

impl View for Binding {
    type V = BindingModel;

    open spec fn view(&self) -> BindingModel {
        BindingModel {
            source: self.source,
            name: self.name@,
            kind: self.kind,
            required: self.required,
        }
    }
}

impl DeepView for Binding {
    type V = BindingModel;

    open spec fn deep_view(&self) -> BindingModel {
        self@
    }
}

/// An extracted value, or a value that a handler returns.
#[derive(Clone, Debug, PartialEq, Eq)]
pub enum Value {
    Integer(i64),
    Text(String),
    Uuid(u128),
    Boolean(bool),
    Bytes(Vec<u8>),
}

/// The mathematical form of a [`Value`].
pub enum ValueModel {
    Integer(int),
    Text(Seq<char>),
    Uuid(nat),
    Boolean(bool),
    Bytes(Seq<u8>),
}

impl View for Value {
    type V = ValueModel;

    open spec fn view(&self) -> ValueModel {
        match self {
            Value::Integer(v) => ValueModel::Integer(*v as int),
            Value::Text(t) => ValueModel::Text(t@),
            Value::Uuid(u) => ValueModel::Uuid(*u as nat),
            Value::Boolean(b) => ValueModel::Boolean(*b),
            Value::Bytes(b) => ValueModel::Bytes(b@),
        }
    }
}

impl DeepView for Value {
    type V = ValueModel;

    open spec fn deep_view(&self) -> ValueModel {
        self@
    }
}

/// A failed extraction: which parameter, what was expected, and why.
#[derive(Clone, Debug, PartialEq, Eq)]
pub struct ExtractionError {
    pub name: String,
    pub expected: Kind,
    pub reason: Reason,
}

/// The mathematical form of an [`ExtractionError`].
pub struct ExtractionErrorModel {
    pub name: Seq<char>,
    pub expected: Kind,
    pub reason: Reason,
}

impl View for ExtractionError {
    type V = ExtractionErrorModel;

    open spec fn view(&self) -> ExtractionErrorModel {
        ExtractionErrorModel { name: self.name@, expected: self.expected, reason: self.reason }
    }
}

impl DeepView for ExtractionError {
    type V = ExtractionErrorModel;

    open spec fn deep_view(&self) -> ExtractionErrorModel {
        self@
    }
}

/// The value that a text stands for when read as the given type.
pub open spec fn spec_convert(kind: Kind, text: Seq<char>) -> Option<ValueModel> {
    match kind {
        Kind::Integer => match spec_parse_integer(text) {
            Some(v) => Some(ValueModel::Integer(v)),
            None => None,
        },
        Kind::Text => Some(ValueModel::Text(text)),
        Kind::Uuid => match spec_parse_uuid(text) {
            Some(u) => Some(ValueModel::Uuid(u)),
            None => None,
        },
        Kind::Boolean => match spec_parse_boolean(text) {
            Some(b) => Some(ValueModel::Boolean(b)),
            None => None,
        },
        Kind::Bytes => Some(ValueModel::Bytes(encode_utf8(text))),
    }
}

/// The value that stands in for an optional parameter that the request lacks.
pub open spec fn spec_default(kind: Kind) -> ValueModel {
    match kind {
        Kind::Integer => ValueModel::Integer(0),
        Kind::Text => ValueModel::Text(Seq::<char>::empty()),
        Kind::Uuid => ValueModel::Uuid(0),
        Kind::Boolean => ValueModel::Boolean(false),
        Kind::Bytes => ValueModel::Bytes(Seq::<u8>::empty()),
    }
}

/// What a request holds for a binding, before any conversion.
pub enum Input {
    /// Nothing.
    Absent,
    /// One text.
    Text(Seq<char>),
    /// Several values under one key.
    Several,
    /// The bytes of the body.
    Body(Seq<u8>),
}

/// What the request holds for a binding. A path parameter is looked up among
/// the captures of the match, a query parameter among the pairs of the query
/// string, a header without regard to case; the body counts as absent where
/// it is empty.
pub open spec fn spec_input(
    binding: BindingModel,
    request: RequestModel,
    captures: Seq<(Seq<char>, Seq<char>)>,
) -> Input {
    match binding.source {
        Source::Path => match first_value(captures, binding.name, false) {
            Some(text) => Input::Text(text),
            None => Input::Absent,
        },
        Source::Query => {
            let values = values_for(request.query, binding.name);
            if values.len() == 0 {
                Input::Absent
            } else if values.len() == 1 {
                Input::Text(values[0])
            } else {
                Input::Several
            }
        },
        Source::Header => match first_value(request.headers, binding.name, true) {
            Some(text) => Input::Text(text),
            None => Input::Absent,
        },
        Source::Body => if request.body.len() == 0 {
            Input::Absent
        } else {
            Input::Body(request.body)
        },
    }
}

/// The failure of a binding for the given reason.
pub open spec fn failure(binding: BindingModel, reason: Reason) -> ExtractionErrorModel {
    ExtractionErrorModel { name: binding.name, expected: binding.kind, reason }
}

/// A converted value, or the failure `Malformed` where there is none.
pub open spec fn or_malformed(binding: BindingModel, value: Option<ValueModel>) -> Result<
    ValueModel,
    ExtractionErrorModel,
> {
    match value {
        Some(v) => Ok(v),
        None => Err(failure(binding, Reason::Malformed)),
    }
}

/// What extracting a binding from a request gives.
///
/// An absent parameter fails as `Missing` where it is required and gives the
/// default of its type where it is optional. Several values under one key
/// fail as `TypeMismatch`. One text is converted to the declared type and
/// fails as `Malformed` where it cannot be. The body is handed on as it is
/// where bytes are declared; for any other type it has to be UTF-8 and is
/// then converted like any text.
pub open spec fn spec_extract(
    binding: BindingModel,
    request: RequestModel,
    captures: Seq<(Seq<char>, Seq<char>)>,
) -> Result<ValueModel, ExtractionErrorModel> {
    match spec_input(binding, request, captures) {
        Input::Absent => if binding.required {
            Err(failure(binding, Reason::Missing))
        } else {
            Ok(spec_default(binding.kind))
        },
        Input::Several => Err(failure(binding, Reason::TypeMismatch)),
        Input::Text(text) => or_malformed(binding, spec_convert(binding.kind, text)),
        Input::Body(bytes) => if binding.kind == Kind::Bytes {
            Ok(ValueModel::Bytes(bytes))
        } else if valid_utf8(bytes) {
            or_malformed(binding, spec_convert(binding.kind, decode_utf8(bytes)))
        } else {
            Err(failure(binding, Reason::Malformed))
        },
    }
}

/// The failure of the first binding at or after `from` that fails.
pub open spec fn first_failure(
    bindings: Seq<BindingModel>,
    request: RequestModel,
    captures: Seq<(Seq<char>, Seq<char>)>,
    from: int,
) -> Option<ExtractionErrorModel>
    decreases bindings.len() - from,
{
    if from < 0 || from >= bindings.len() {
        None
    } else {
        match spec_extract(bindings[from], request, captures) {
            Err(error) => Some(error),
            Ok(_) => first_failure(bindings, request, captures, from + 1),
        }
    }
}

/// What extracting all the bindings of a route gives: the values in the order
/// of the bindings, or the failure of the first binding that fails.
pub open spec fn spec_extract_all(
    bindings: Seq<BindingModel>,
    request: RequestModel,
    captures: Seq<(Seq<char>, Seq<char>)>,
) -> Result<Seq<ValueModel>, ExtractionErrorModel> {
    match first_failure(bindings, request, captures, 0) {
        Some(error) => Err(error),
        None => Ok(
            Seq::new(bindings.len(), |i: int| spec_extract(bindings[i], request, captures)->Ok_0),
        ),
    }
}

/// `core::str::Utf8Error`, handed on and never looked into.
#[verifier::external_type_specification]
#[verifier::external_body]
pub struct ExUtf8Error(core::str::Utf8Error);

/// `core::str::from_utf8` succeeds exactly on bytes that are well-formed
/// UTF-8, and the text it gives is encoded by the bytes it was given.
pub assume_specification[ core::str::from_utf8 ](v: &[u8]) -> (r: Result<
    &str,
    core::str::Utf8Error,
>)
    ensures
        r is Ok <==> valid_utf8(v@),
        r matches Ok(s) ==> encode_utf8(s@) == v@,
;

/// The body as text, where it is UTF-8.
pub fn body_text(body: &Vec<u8>) -> (text: Option<&str>)
    ensures
        text is Some <==> valid_utf8(body@),
        text matches Some(t) ==> t@ == decode_utf8(body@),
{
    match core::str::from_utf8(body.as_slice()) {
        Ok(text) => {
            proof {
                vstd::utf8::encode_utf8_decode_utf8(text@);
            }
            Some(text)
        },
        Err(_) => None,
    }
}

/// Reads a text as the given type.
pub fn convert(kind: Kind, text: &str) -> (value: Option<Value>)
    ensures
        value.deep_view() == spec_convert(kind, text@),
{
    match kind {
        Kind::Integer => match parse_integer(text) {
            Some(v) => Some(Value::Integer(v)),
            None => None,
        },
        Kind::Text => Some(Value::Text(text.to_owned())),
        Kind::Uuid => match parse_uuid(text) {
            Some(u) => Some(Value::Uuid(u)),
            None => None,
        },
        Kind::Boolean => match parse_boolean(text) {
            Some(b) => Some(Value::Boolean(b)),
            None => None,
        },
        Kind::Bytes => Some(Value::Bytes(text.as_bytes_vec())),
    }
}

/// The value that stands in for an optional parameter that the request lacks.
pub fn default_value(kind: Kind) -> (value: Value)
    ensures
        value@ == spec_default(kind),
{
    match kind {
        Kind::Integer => Value::Integer(0),
        Kind::Text => Value::Text(String::new()),
        Kind::Uuid => Value::Uuid(0),
        Kind::Boolean => Value::Boolean(false),
        Kind::Bytes => Value::Bytes(Vec::new()),
    }
}

/// The failure of a binding for the given reason.
fn fail(binding: &Binding, reason: Reason) -> (error: ExtractionError)
    ensures
        error@ == failure(binding@, reason),
{
    ExtractionError { name: binding.name.clone(), expected: binding.kind, reason }
}

/// What is owed for a parameter that the request lacks.
fn absent(binding: &Binding) -> (result: Result<Value, ExtractionError>)
    ensures
        result is Ok <==> !binding.required,
        result matches Ok(v) ==> v@ == spec_default(binding.kind),
        result matches Err(e) ==> e@ == failure(binding@, Reason::Missing),
{
    if binding.required {
        Err(fail(binding, Reason::Missing))
    } else {
        Ok(default_value(binding.kind))
    }
}

/// Converts the one text that the request holds for a binding.
fn present(binding: &Binding, text: &str) -> (result: Result<Value, ExtractionError>)
    ensures
        result is Ok <==> spec_convert(binding.kind, text@) is Some,
        result matches Ok(v) ==> Some(v@) == spec_convert(binding.kind, text@),
        result matches Err(e) ==> e@ == failure(binding@, Reason::Malformed),
{
    match convert(binding.kind, text) {
        Some(value) => Ok(value),
        None => Err(fail(binding, Reason::Malformed)),
    }
}

/// Whether the two results say the same: the same value, or the same failure.
pub open spec fn agrees(
    result: Result<Value, ExtractionError>,
    model: Result<ValueModel, ExtractionErrorModel>,
) -> bool {
    match result {
        Ok(value) => model == Ok::<ValueModel, ExtractionErrorModel>(value@),
        Err(error) => model == Err::<ValueModel, ExtractionErrorModel>(error@),
    }
}

/// Extracts one parameter. `captures` is what matching the path gave.
pub fn extract(binding: &Binding, request: &Request, captures: &Vec<(String, String)>) -> (result:
    Result<Value, ExtractionError>)
    ensures
        agrees(result, spec_extract(binding@, request@, captures.deep_view())),
{
    match binding.source {
        Source::Path => match find_first(captures, binding.name.as_str(), false) {
            Some(text) => present(binding, text.as_str()),
            None => absent(binding),
        },
        Source::Query => {
            let values = find_all(&request.query, binding.name.as_str());
            if values.len() == 0 {
                absent(binding)
            } else if values.len() == 1 {
                assert(values.deep_view()[0] == values[0]@);
                present(binding, values[0].as_str())
            } else {
                Err(fail(binding, Reason::TypeMismatch))
            }
        },
        Source::Header => match find_first(&request.headers, binding.name.as_str(), true) {
            Some(text) => present(binding, text.as_str()),
            None => absent(binding),
        },
        Source::Body => {
            if request.body.len() == 0 {
                absent(binding)
            } else {
                match binding.kind {
                    Kind::Bytes => Ok(Value::Bytes(copy_bytes(&request.body))),
                    _ => match body_text(&request.body) {
                        Some(text) => present(binding, text),
                        None => Err(fail(binding, Reason::Malformed)),
                    },
                }
            }
        },
    }
}

/// A copy of the bytes.
pub fn copy_bytes(bytes: &Vec<u8>) -> (out: Vec<u8>)
    ensures
        out@ == bytes@,
{
    let mut out: Vec<u8> = Vec::new();
    let mut i: usize = 0;
    while i < bytes.len()
        invariant
            i <= bytes.len(),
            out@ == bytes@.take(i as int),
        decreases bytes.len() - i,
    {
        out.push(bytes[i]);
        assert(bytes@.take(i + 1) == bytes@.take(i as int).push(bytes@[i as int]));
        i = i + 1;
    }
    assert(bytes@.take(i as int) == bytes@);
    out
}

/// Whether what is known of the body as text is true of the body: nothing
/// is known, or the body is known not to be UTF-8, or its text is known.
pub open spec fn remembered(known: Option<Option<&str>>, body: Seq<u8>) -> bool {
    known matches Some(text) ==> (text is Some <==> valid_utf8(body)) && (text matches Some(t)
        ==> t@ == decode_utf8(body))
}

/// Extracts the parameters of a route in the order they are declared. The
/// first failure ends the extraction. The body is decoded as text at most
/// once, however many parameters read it.
pub fn extract_all(
    bindings: &Vec<Binding>,
    request: &Request,
    captures: &Vec<(String, String)>,
) -> (result: Result<Vec<Value>, ExtractionError>)
    ensures
        result matches Ok(values) ==> spec_extract_all(
            bindings.deep_view(),
            request@,
            captures.deep_view(),
        ) == Ok::<Seq<ValueModel>, ExtractionErrorModel>(values.deep_view()),
        result matches Err(error) ==> spec_extract_all(
            bindings.deep_view(),
            request@,
            captures.deep_view(),
        ) == Err::<Seq<ValueModel>, ExtractionErrorModel>(error@),
{
    let ghost declared = bindings.deep_view();
    let ghost found = captures.deep_view();
    let mut values: Vec<Value> = Vec::new();
    let mut known: Option<Option<&str>> = None;
    let mut i: usize = 0;
    while i < bindings.len()
        invariant
            i <= bindings.len(),
            declared == bindings.deep_view(),
            found == captures.deep_view(),
            values.len() == i,
            remembered(known, request.body@),
            first_failure(declared, request@, found, 0) == first_failure(
                declared,
                request@,
                found,
                i as int,
            ),
            forall|k: int|
                0 <= k < i ==> spec_extract(declared[k], request@, found) == Ok::<
                    ValueModel,
                    ExtractionErrorModel,
                >(#[trigger] values.deep_view()[k]),
        decreases bindings.len() - i,
    {
        let binding = &bindings[i];
        assert(declared[i as int] == binding@);
        let reads_text = match (binding.source, binding.kind) {
            (Source::Body, Kind::Bytes) => false,
            (Source::Body, _) => request.body.len() > 0,
            _ => false,
        };
        let extracted = if reads_text {
            let text = match known {
                Some(text) => text,
                None => {
                    let text = body_text(&request.body);
                    known = Some(text);
                    text
                },
            };
            match text {
                Some(text) => present(binding, text),
                None => Err(fail(binding, Reason::Malformed)),
            }
        } else {
            extract(binding, request, captures)
        };
        match extracted {
            Err(error) => {
                return Err(error);
            },
            Ok(value) => {
                let ghost before = values.deep_view();
                let ghost model = value@;
                values.push(value);
                assert(values.deep_view() == before.push(model));
            },
        }
        i = i + 1;
    }
    assert(values.deep_view() == Seq::new(
        declared.len(),
        |k: int| spec_extract(declared[k], request@, found)->Ok_0,
    ));
    Ok(values)
}

} // verus!
