//! What holds of every table and every request: when a build succeeds, which
//! route wins, and when the answer is `404`, `405` or `400`.
use vstd::prelude::*;
use vstd::utf8::encode_utf8;
use crate::dispatch::{allowed_verbs, first_route, routes_to, spec_resolve, Resolution};
use crate::extract::{
    failure, first_failure, spec_convert, spec_default, spec_extract, spec_extract_all,
    spec_input, BindingModel, ExtractionErrorModel, Input, Reason, ValueModel,
};
use crate::pattern::{same_shape, spec_compile, spec_match, CompileError, SegmentModel};
use crate::pattern_lemmas::lemma_render_compile;
use crate::request::{RequestModel, Verb};
use crate::response::{bad_request, kind_text, reason_text};
use crate::table::{
    compiled, conflict_free, conflicts, earlier_conflict, first_conflict, first_invalid,
    lemma_check_passes, spec_build, BuildErrorModel, RouteDescriptorModel, RouteEntryModel,
};

verus! {

/// Where no first invalid template is found from `from` on, every template
/// from there on compiles; and the other way round.
pub proof fn lemma_first_invalid(descriptors: Seq<RouteDescriptorModel>, from: int)
    requires
        0 <= from,
    ensures
        first_invalid(descriptors, from) is None <==> forall|i: int|
            from <= i < descriptors.len() ==> spec_compile(
                (#[trigger] descriptors[i]).template,
            ) is Ok,
        first_invalid(descriptors, from) matches Some((i, error)) ==> from <= i
            < descriptors.len() && spec_compile(descriptors[i].template) == Err::<
            Seq<SegmentModel>,
            CompileError,
        >(error),
    decreases descriptors.len() - from,
{
    if from < descriptors.len() {
        lemma_first_invalid(descriptors, from + 1);
    }
}

/// A build succeeds exactly when every template compiles and no two of the
/// compiled routes conflict; the table then holds the compiled routes in the
/// order of their declaration.
pub proof fn lemma_build_succeeds(descriptors: Seq<RouteDescriptorModel>)
    ensures
        spec_build(descriptors) is Ok <==> (forall|i: int|
            0 <= i < descriptors.len() ==> spec_compile(
                (#[trigger] descriptors[i]).template,
            ) is Ok) && conflict_free(
            Seq::new(descriptors.len(), |i: int| compiled(descriptors[i])),
        ),
        spec_build(descriptors) is Ok ==> spec_build(descriptors)->Ok_0 == Seq::new(
            descriptors.len(),
            |i: int| compiled(descriptors[i]),
        ),
{
    lemma_first_invalid(descriptors, 0);
    lemma_check_passes(Seq::new(descriptors.len(), |i: int| compiled(descriptors[i])));
}

/// Two routes with the same verb whose templates compile to the same shape
/// never make a table: the build fails and names both templates.
pub proof fn lemma_same_shape_is_ambiguous(
    first: RouteDescriptorModel,
    second: RouteDescriptorModel,
)
    requires
        first.verb == second.verb,
        spec_compile(first.template) is Ok,
        spec_compile(second.template) is Ok,
        same_shape(spec_compile(first.template)->Ok_0, spec_compile(second.template)->Ok_0),
    ensures
        spec_build(seq![first, second]) == Err::<Seq<RouteEntryModel>, BuildErrorModel>(
            BuildErrorModel::AmbiguousRoute { first: first.template, second: second.template },
        ),
{
    let declared = seq![first, second];
    let entries = Seq::new(declared.len(), |i: int| compiled(declared[i]));
    lemma_first_invalid(declared, 0);
    assert(first_invalid(declared, 0) is None) by {
        assert forall|i: int| 0 <= i < declared.len() implies spec_compile(
            (#[trigger] declared[i]).template,
        ) is Ok by {
            if i == 1 {
                assert(declared[i] == second);
            }
        }
    }
    assert(entries[0] == compiled(first));
    assert(entries[1] == compiled(second));
    assert(conflicts(entries[0], entries[1]));
    assert(earlier_conflict(entries, 0, 0) is None);
    assert(earlier_conflict(entries, 1, 0) == Some(0int));
    assert(first_conflict(entries, 1) == Some((0int, 1int)));
    assert(first_conflict(entries, 0) == Some((0int, 1int)));
    lemma_render_compile(first.template);
    lemma_render_compile(second.template);
}

/// The route that a request is routed to is the first, in the order of
/// declaration, whose verb and template fit; no later route is looked at.
pub proof fn lemma_first_match_wins(
    entries: Seq<RouteEntryModel>,
    request: RequestModel,
    from: int,
)
    requires
        0 <= from,
    ensures
        first_route(entries, request, from) is None <==> forall|k: int|
            from <= k < entries.len() ==> !routes_to(#[trigger] entries[k], request),
        first_route(entries, request, from) matches Some(i) ==> from <= i < entries.len()
            && routes_to(entries[i], request) && forall|k: int|
            from <= k < i ==> !routes_to(#[trigger] entries[k], request),
    decreases entries.len() - from,
{
    if from < entries.len() {
        lemma_first_match_wins(entries, request, from + 1);
    }
}

/// Where route `i` fits a request and no route declared before it does, the
/// request is resolved by route `i`: its handler is to be called with the
/// extracted arguments, or the first failed extraction is reported.
pub proof fn lemma_declaration_order_decides(
    entries: Seq<RouteEntryModel>,
    request: RequestModel,
    i: int,
)
    requires
        0 <= i < entries.len(),
        routes_to(entries[i], request),
        forall|k: int| 0 <= k < i ==> !routes_to(#[trigger] entries[k], request),
    ensures
        first_route(entries, request, 0) == Some(i),
        match spec_extract_all(
            entries[i].bindings,
            request,
            spec_match(entries[i].pattern, request.path).unwrap(),
        ) {
            Ok(arguments) => spec_resolve(entries, request) == (Resolution::Invoke {
                entry: i,
                arguments,
            }),
            Err(error) => spec_resolve(entries, request) == Resolution::BadRequest(error),
        },
{
    lemma_first_match_wins(entries, request, 0);
}

/// The verbs under which a path is routed are the verbs of the routes whose
/// template matches the path, each listed once.
pub proof fn lemma_allowed_verbs(entries: Seq<RouteEntryModel>, path: Seq<Seq<char>>)
    ensures
        allowed_verbs(entries, path).no_duplicates(),
        forall|verb: Verb| #[trigger]
            allowed_verbs(entries, path).contains(verb) <==> exists|i: int|
                0 <= i < entries.len() && (#[trigger] entries[i]).verb == verb && spec_match(
                    entries[i].pattern,
                    path,
                ) is Some,
    decreases entries.len(),
{
    let verbs = allowed_verbs(entries, path);
    if entries.len() > 0 {
        let front = entries.drop_last();
        let before = allowed_verbs(front, path);
        let last = entries.last();
        lemma_allowed_verbs(front, path);
        let added = spec_match(last.pattern, path) is Some && !before.contains(last.verb);
        assert forall|verb: Verb| #[trigger] verbs.contains(verb) implies exists|i: int|
            0 <= i < entries.len() && (#[trigger] entries[i]).verb == verb && spec_match(
                entries[i].pattern,
                path,
            ) is Some by {
            if before.contains(verb) {
                let i = choose|i: int|
                    0 <= i < front.len() && (#[trigger] front[i]).verb == verb && spec_match(
                        front[i].pattern,
                        path,
                    ) is Some;
                assert(entries[i] == front[i]);
            } else {
                assert(added);
                let at = choose|k: int| 0 <= k < verbs.len() && verbs[k] == verb;
                assert(at == before.len());
                assert(entries[entries.len() - 1] == last);
            }
        }
        assert forall|verb: Verb|
            (exists|i: int|
                0 <= i < entries.len() && (#[trigger] entries[i]).verb == verb && spec_match(
                    entries[i].pattern,
                    path,
                ) is Some) implies #[trigger] verbs.contains(verb) by {
            let i = choose|i: int|
                0 <= i < entries.len() && (#[trigger] entries[i]).verb == verb && spec_match(
                    entries[i].pattern,
                    path,
                ) is Some;
            if i < front.len() {
                assert(front[i] == entries[i]);
                assert(before.contains(verb));
                let at = choose|k: int| 0 <= k < before.len() && before[k] == verb;
                assert(verbs[at] == verb);
            } else {
                if before.contains(verb) {
                    let at = choose|k: int| 0 <= k < before.len() && before[k] == verb;
                    assert(verbs[at] == verb);
                } else {
                    assert(verbs[before.len() as int] == verb);
                }
            }
        }
        if added {
            assert forall|a: int, b: int| 0 <= a < verbs.len() && 0 <= b < verbs.len() && a
                != b implies verbs[a] != verbs[b] by {
                if a < before.len() && b < before.len() {
                } else if a < before.len() {
                    assert(before.contains(before[a]));
                } else {
                    assert(before.contains(before[b]));
                }
            }
        }
    }
}

/// A request whose path no template matches is answered with `404`; and
/// no other request is.
pub proof fn lemma_not_found(entries: Seq<RouteEntryModel>, request: RequestModel)
    ensures
        spec_resolve(entries, request) is NotFound <==> forall|i: int|
            0 <= i < entries.len() ==> spec_match((#[trigger] entries[i]).pattern, request.path)
                is None,
{
    lemma_first_match_wins(entries, request, 0);
    lemma_allowed_verbs(entries, request.path);
    let verbs = allowed_verbs(entries, request.path);
    if spec_resolve(entries, request) is NotFound {
        assert forall|i: int| 0 <= i < entries.len() implies spec_match(
            (#[trigger] entries[i]).pattern,
            request.path,
        ) is None by {
            if spec_match(entries[i].pattern, request.path) is Some {
                assert(verbs.contains(entries[i].verb));
            }
        }
    }
    if forall|i: int|
        0 <= i < entries.len() ==> spec_match((#[trigger] entries[i]).pattern, request.path)
            is None {
        if verbs.len() > 0 {
            assert(verbs.contains(verbs[0]));
        }
    }
}

/// A request whose path is routed, but not under its verb, is answered with
/// `405` and the verbs under which the path is routed: each verb of a route
/// whose template matches, listed once, and never the verb of the request.
pub proof fn lemma_method_not_allowed(entries: Seq<RouteEntryModel>, request: RequestModel)
    requires
        forall|i: int| 0 <= i < entries.len() ==> !routes_to(#[trigger] entries[i], request),
        exists|i: int|
            0 <= i < entries.len() && spec_match((#[trigger] entries[i]).pattern, request.path)
                is Some,
    ensures
        spec_resolve(entries, request) == Resolution::MethodNotAllowed(
            allowed_verbs(entries, request.path),
        ),
        allowed_verbs(entries, request.path).len() > 0,
        allowed_verbs(entries, request.path).no_duplicates(),
        !allowed_verbs(entries, request.path).contains(request.verb),
        forall|verb: Verb| #[trigger]
            allowed_verbs(entries, request.path).contains(verb) <==> exists|i: int|
                0 <= i < entries.len() && (#[trigger] entries[i]).verb == verb && spec_match(
                    entries[i].pattern,
                    request.path,
                ) is Some,
{
    lemma_first_match_wins(entries, request, 0);
    lemma_allowed_verbs(entries, request.path);
    let verbs = allowed_verbs(entries, request.path);
    let i = choose|i: int|
        0 <= i < entries.len() && spec_match((#[trigger] entries[i]).pattern, request.path)
            is Some;
    assert(verbs.contains(entries[i].verb));
    if verbs.contains(request.verb) {
        let k = choose|k: int|
            0 <= k < entries.len() && (#[trigger] entries[k]).verb == request.verb && spec_match(
                entries[k].pattern,
                request.path,
            ) is Some;
        assert(routes_to(entries[k], request));
    }
}

/// A parameter for which the request holds one text that cannot be read as
/// the declared type fails as `Malformed`, under the name of the parameter.
pub proof fn lemma_unreadable_is_malformed(
    binding: BindingModel,
    request: RequestModel,
    captures: Seq<(Seq<char>, Seq<char>)>,
)
    requires
        spec_input(binding, request, captures) matches Input::Text(text) && spec_convert(
            binding.kind,
            text,
        ) is None,
    ensures
        spec_extract(binding, request, captures) == Err::<ValueModel, ExtractionErrorModel>(
            ExtractionErrorModel {
                name: binding.name,
                expected: binding.kind,
                reason: Reason::Malformed,
            },
        ),
{
}

/// Where a route wins and one of its parameters cannot be extracted, the
/// request is answered with `400`, and the body names the first parameter
/// that failed and the reason.
pub proof fn lemma_failed_extraction_is_bad_request(
    entries: Seq<RouteEntryModel>,
    request: RequestModel,
    i: int,
)
    requires
        first_route(entries, request, 0) == Some(i),
        first_failure(
            entries[i].bindings,
            request,
            spec_match(entries[i].pattern, request.path).unwrap(),
            0,
        ) is Some,
    ensures
        spec_resolve(entries, request) == Resolution::BadRequest(
            first_failure(
                entries[i].bindings,
                request,
                spec_match(entries[i].pattern, request.path).unwrap(),
                0,
            ).unwrap(),
        ),
        forall|error: ExtractionErrorModel|
            (#[trigger] bad_request(error)).status == 400 && bad_request(error).body
                == encode_utf8(
                error.name + ": "@ + reason_text(error.reason) + " (expected "@ + kind_text(
                    error.expected,
                ) + ")"@,
            ),
{
}

/// An optional parameter that the request lacks does not fail: it is
/// extracted as the default of its type.
pub proof fn lemma_optional_absent_gives_default(
    binding: BindingModel,
    request: RequestModel,
    captures: Seq<(Seq<char>, Seq<char>)>,
)
    requires
        !binding.required,
        spec_input(binding, request, captures) is Absent,
    ensures
        spec_extract(binding, request, captures) == Ok::<ValueModel, ExtractionErrorModel>(
            spec_default(binding.kind),
        ),
{
}

/// A required parameter that the request lacks fails as `Missing`.
pub proof fn lemma_required_absent_is_missing(
    binding: BindingModel,
    request: RequestModel,
    captures: Seq<(Seq<char>, Seq<char>)>,
)
    requires
        binding.required,
        spec_input(binding, request, captures) is Absent,
    ensures
        spec_extract(binding, request, captures) == Err::<ValueModel, ExtractionErrorModel>(
            failure(binding, Reason::Missing),
        ),
{
}

} // verus!
