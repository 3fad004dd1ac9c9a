//! Dispatch: finding the route of a request, extracting its parameters,
//! calling the handler and answering.
use vstd::prelude::*;
use crate::extract::{
    extract_all, spec_extract_all, ExtractionError, ExtractionErrorModel, Value, ValueModel,
};
use crate::pattern::spec_match;
use crate::request::{Request, RequestModel, Verb};
use crate::response::{
    bad_request, method_not_allowed, not_found, spec_respond, HandlerOutcome, Response,
    ResponseModel,
};
use crate::table::{RouteEntry, RouteEntryModel, RouteTable};

verus! {

/// Whether a route is declared for the verb of the request and its template
/// matches the path.
pub open spec fn routes_to(entry: RouteEntryModel, request: RequestModel) -> bool {
    entry.verb == request.verb && spec_match(entry.pattern, request.path) is Some
}

/// The first route at or after `from`, in the order of declaration, that the
/// request is routed to.
pub open spec fn first_route(entries: Seq<RouteEntryModel>, request: RequestModel, from: int)
    -> Option<int>
    decreases entries.len() - from,
{
    if from < 0 || from >= entries.len() {
        None
    } else if routes_to(entries[from], request) {
        Some(from)
    } else {
        first_route(entries, request, from + 1)
    }
}

/// The verbs under which the path is routed, each once, in the order in
/// which the routes were declared.
pub open spec fn allowed_verbs(entries: Seq<RouteEntryModel>, path: Seq<Seq<char>>) -> Seq<Verb>
    decreases entries.len(),
{
    if entries.len() == 0 {
        Seq::<Verb>::empty()
    } else {
        let before = allowed_verbs(entries.drop_last(), path);
        let last = entries.last();
        if spec_match(last.pattern, path) is Some && !before.contains(last.verb) {
            before.push(last.verb)
        } else {
            before
        }
    }
}

/// What is to be done with a request.
pub enum Resolution {
    /// No template matches the path.
    NotFound,
    /// Templates match the path, but only under the listed verbs.
    MethodNotAllowed(Seq<Verb>),
    /// A route was found and a parameter could not be extracted.
    BadRequest(ExtractionErrorModel),
    /// The handler of the route at `entry` is to be called with the arguments.
    Invoke { entry: int, arguments: Seq<ValueModel> },
}

/// What is to be done with a request, given the routes of a table.
///
/// The first route, in the order of declaration, whose verb is that of the
/// request and whose template matches the path wins. Its parameters are
/// extracted in the order of declaration, and the first failure ends the
/// extraction. Where no route wins, the answer depends on whether any
/// template matches the path at all.
pub open spec fn spec_resolve(entries: Seq<RouteEntryModel>, request: RequestModel) -> Resolution {
    match first_route(entries, request, 0) {
        Some(i) => match spec_extract_all(
            entries[i].bindings,
            request,
            spec_match(entries[i].pattern, request.path).unwrap(),
        ) {
            Ok(arguments) => Resolution::Invoke { entry: i, arguments },
            Err(error) => Resolution::BadRequest(error),
        },
        None => {
            let verbs = allowed_verbs(entries, request.path);
            if verbs.len() == 0 {
                Resolution::NotFound
            } else {
                Resolution::MethodNotAllowed(verbs)
            }
        },
    }
}

/// What is to be done with a request, as the router found it.
#[derive(Clone, Debug, PartialEq, Eq)]
pub enum Routed {
    /// No template matches the path.
    NotFound,
    /// Templates match the path, but only under the listed verbs.
    MethodNotAllowed(Vec<Verb>),
    /// A route was found and a parameter could not be extracted.
    BadRequest(ExtractionError),
    /// The handler of the route at `entry` is to be called with the arguments.
    Invoke { entry: usize, arguments: Vec<Value> },
}

impl View for Routed {
    type V = Resolution;

    open spec fn view(&self) -> Resolution {
        match self {
            Routed::NotFound => Resolution::NotFound,
            Routed::MethodNotAllowed(verbs) => Resolution::MethodNotAllowed(verbs@),
            Routed::BadRequest(error) => Resolution::BadRequest(error@),
            Routed::Invoke { entry, arguments } => Resolution::Invoke {
                entry: *entry as int,
                arguments: arguments.deep_view(),
            },
        }
    }
}

/// Whether the verb is among the verbs.
fn listed(verbs: &Vec<Verb>, verb: Verb) -> (found: bool)
    ensures
        found == verbs@.contains(verb),
{
    let mut i: usize = 0;
    while i < verbs.len()
        invariant
            i <= verbs.len(),
            forall|k: int| 0 <= k < i ==> verbs@[k] != verb,
        decreases verbs.len() - i,
    {
        if verbs[i] == verb {
            return true;
        }
        i = i + 1;
    }
    false
}

/// The verbs under which the path is routed.
pub fn allowed(entries: &Vec<RouteEntry>, path: &Vec<String>) -> (verbs: Vec<Verb>)
    ensures
        verbs@ == allowed_verbs(entries.deep_view(), path.deep_view()),
{
    let ghost routes = entries.deep_view();
    let mut verbs: Vec<Verb> = Vec::new();
    let mut i: usize = 0;
    assert(routes.take(0) == Seq::<RouteEntryModel>::empty());
    while i < entries.len()
        invariant
            i <= entries.len(),
            routes == entries.deep_view(),
            verbs@ == allowed_verbs(routes.take(i as int), path.deep_view()),
        decreases entries.len() - i,
    {
        proof {
            assert(routes.take(i + 1).drop_last() == routes.take(i as int));
            assert(routes.take(i + 1).last() == entries[i as int]@);
        }
        if !listed(&verbs, entries[i].verb) {
            if entries[i].pattern.match_path(path).is_some() {
                verbs.push(entries[i].verb);
            }
        }
        i = i + 1;
    }
    assert(routes.take(i as int) == routes);
    verbs
}

/// Finds what is to be done with a request.
pub fn resolve(table: &RouteTable, request: &Request) -> (routed: Routed)
    ensures
        routed@ == spec_resolve(table@, request@),
        routed matches Routed::Invoke { entry, .. } ==> entry < table@.len(),
{
    let entries = table.entries();
    let ghost routes = table@;
    let mut i: usize = 0;
    while i < entries.len()
        invariant
            i <= entries.len(),
            routes == table@,
            routes == entries.deep_view(),
            first_route(routes, request@, 0) == first_route(routes, request@, i as int),
        decreases entries.len() - i,
    {
        let entry = &entries[i];
        assert(routes[i as int] == entry@);
        if entry.verb == request.verb {
            match entry.pattern.match_path(&request.path) {
                Some(captures) => {
                    return match extract_all(&entry.bindings, request, &captures) {
                        Ok(arguments) => Routed::Invoke { entry: i, arguments },
                        Err(error) => Routed::BadRequest(error),
                    };
                },
                None => {},
            }
        }
        i = i + 1;
    }
    let verbs = allowed(entries, &request.path);
    if verbs.len() == 0 {
        Routed::NotFound
    } else {
        Routed::MethodNotAllowed(verbs)
    }
}

/// Whether the response is a right answer to the request, where the handlers
/// are `handlers`: the fixed answer where no handler is to be called, else the
/// conversion of something that the handler may return for the extracted
/// arguments.
pub open spec fn answers<H: Fn(usize, Vec<Value>) -> HandlerOutcome>(
    entries: Seq<RouteEntryModel>,
    request: RequestModel,
    handlers: H,
    response: ResponseModel,
) -> bool {
    match spec_resolve(entries, request) {
        Resolution::NotFound => response == not_found(),
        Resolution::MethodNotAllowed(verbs) => response == method_not_allowed(verbs),
        Resolution::BadRequest(error) => response == bad_request(error),
        Resolution::Invoke { entry, arguments } => exists|
            given: Vec<Value>,
            outcome: HandlerOutcome,
        |
            given.deep_view() == arguments && #[trigger] handlers.ensures(
                (entries[entry].handler, given),
                outcome,
            ) && response == spec_respond(entries[entry].returns, outcome@),
    }
}

/// Whether the handlers accept the call that the request leads to, if it
/// leads to one.
pub open spec fn callable<H: Fn(usize, Vec<Value>) -> HandlerOutcome>(
    entries: Seq<RouteEntryModel>,
    request: RequestModel,
    handlers: H,
) -> bool {
    spec_resolve(entries, request) matches Resolution::Invoke { entry, arguments } ==> forall|
        given: Vec<Value>,
    |
        given.deep_view() == arguments ==> #[trigger] handlers.requires(
            (entries[entry].handler, given),
        )
}

/// Answers a request. `handlers` calls the handler with the given number on
/// the given arguments; it is called at most once, and only after every
/// parameter of the route has been extracted.
pub fn dispatch<H: Fn(usize, Vec<Value>) -> HandlerOutcome>(
    table: &RouteTable,
    request: &Request,
    handlers: H,
) -> (response: Response)
    requires
        callable(table@, request@, handlers),
    ensures
        answers(table@, request@, handlers, response@),
{
    match resolve(table, request) {
        Routed::NotFound => Response::not_found(),
        Routed::MethodNotAllowed(verbs) => Response::method_not_allowed(&verbs),
        Routed::BadRequest(error) => Response::bad_request(&error),
        Routed::Invoke { entry, arguments } => {
            let entries = table.entries();
            let route = &entries[entry];
            assert(table@[entry as int] == route@);
            let ghost given = arguments;
            let outcome = handlers(route.handler, arguments);
            let ghost returned = outcome;
            let response = Response::from_outcome(route.returns, outcome);
            assert(handlers.ensures((table@[entry as int].handler, given), returned));
            response
        },
    }
}

} // verus!
