use meerkat_controller::extract::{Binding, Kind, Source};
use meerkat_controller::pattern::CompileError;
use meerkat_controller::request::Verb;
use meerkat_controller::response::ReturnShape;
use meerkat_controller::table::{copy_bindings, BuildError, RouteDescriptor, RouteTable};

fn route(verb: Verb, template: &str, handler: usize) -> RouteDescriptor {
    RouteDescriptor {
        verb,
        template: template.to_string(),
        handler,
        bindings: vec![],
        returns: ReturnShape::Raw,
    }
}

fn ambiguous(first: &str, second: &str) -> BuildError {
    BuildError::AmbiguousRoute { first: first.to_string(), second: second.to_string() }
}

#[test]
fn a_table_keeps_the_routes_in_the_order_of_declaration() {
    let id = Binding { source: Source::Path, name: "id".to_string(), kind: Kind::Integer, required: true };
    let mut second = route(Verb::Get, "cats/:id", 11);
    second.bindings = vec![id.clone()];
    second.returns = ReturnShape::Fallible;
    let table = RouteTable::build(&vec![route(Verb::Post, "cats", 10), second, route(Verb::Delete, "cats/:id", 12)]).unwrap();
    assert_eq!(table.len(), 3);
    let entries = table.entries();
    assert_eq!(entries[0].verb, Verb::Post);
    assert_eq!(entries[0].pattern.template(), "cats");
    assert_eq!(entries[0].handler, 10);
    assert_eq!(entries[1].verb, Verb::Get);
    assert_eq!(entries[1].pattern.template(), "cats/:id");
    assert_eq!(entries[1].handler, 11);
    assert_eq!(entries[1].bindings, vec![id]);
    assert_eq!(entries[1].returns, ReturnShape::Fallible);
    assert_eq!(entries[2].verb, Verb::Delete);
    assert_eq!(entries[2].handler, 12);
}

#[test]
fn an_empty_table_is_built() {
    assert_eq!(RouteTable::build(&vec![]).unwrap().len(), 0);
}

#[test]
fn the_same_verb_and_shape_are_ambiguous() {
    let result = RouteTable::build(&vec![route(Verb::Get, "cats/:id", 0), route(Verb::Get, "cats/:x", 1)]);
    assert_eq!(result.unwrap_err(), ambiguous("cats/:id", "cats/:x"));
}

#[test]
fn the_same_template_twice_is_ambiguous() {
    let result = RouteTable::build(&vec![route(Verb::Get, "cats", 0), route(Verb::Get, "cats", 1)]);
    assert_eq!(result.unwrap_err(), ambiguous("cats", "cats"));
    let result = RouteTable::build(&vec![route(Verb::Put, "", 0), route(Verb::Put, "", 1)]);
    assert_eq!(result.unwrap_err(), ambiguous("", ""));
}

#[test]
fn the_same_shape_under_different_verbs_is_no_conflict() {
    let table = RouteTable::build(&vec![route(Verb::Get, "cats/:id", 0), route(Verb::Delete, "cats/:x", 1)]);
    assert_eq!(table.unwrap().len(), 2);
}

#[test]
fn a_capture_and_a_literal_in_the_same_place_are_no_conflict() {
    let table = RouteTable::build(&vec![route(Verb::Get, "cats/:id", 0), route(Verb::Get, "cats/special", 1)]);
    assert_eq!(table.unwrap().len(), 2);
}

#[test]
fn a_capture_and_a_wildcard_in_the_same_place_are_no_conflict() {
    let table = RouteTable::build(&vec![route(Verb::Get, "cats/:id", 0), route(Verb::Get, "cats/*id", 1)]);
    assert_eq!(table.unwrap().len(), 2);
}

#[test]
fn the_first_conflict_is_reported() {
    let result = RouteTable::build(&vec![
        route(Verb::Get, "a/:x", 0),
        route(Verb::Get, "b/:x", 1),
        route(Verb::Get, "b/:y", 2),
        route(Verb::Get, "a/:z", 3),
    ]);
    assert_eq!(result.unwrap_err(), ambiguous("b/:x", "b/:y"));
    let result = RouteTable::build(&vec![
        route(Verb::Get, "a/:x", 0),
        route(Verb::Get, "a/:y", 1),
        route(Verb::Get, "a/:z", 2),
    ]);
    assert_eq!(result.unwrap_err(), ambiguous("a/:x", "a/:y"));
    let result = RouteTable::build(&vec![
        route(Verb::Get, "a/:x", 0),
        route(Verb::Post, "a/:y", 1),
        route(Verb::Post, "a/:z", 2),
        route(Verb::Get, "a/:w", 3),
    ]);
    assert_eq!(result.unwrap_err(), ambiguous("a/:y", "a/:z"));
}

#[test]
fn a_template_that_does_not_compile_ends_the_build() {
    let result = RouteTable::build(&vec![
        route(Verb::Get, "cats", 0),
        route(Verb::Get, "cats/:id/:id", 1),
        route(Verb::Get, "dogs//x", 2),
    ]);
    assert_eq!(
        result.unwrap_err(),
        BuildError::InvalidTemplate { index: 1, error: CompileError::DuplicateCapture { position: 2 } }
    );
}

#[test]
fn templates_are_compiled_before_conflicts_are_looked_for() {
    let result = RouteTable::build(&vec![
        route(Verb::Get, "cats/:a", 0),
        route(Verb::Get, "cats/:b", 1),
        route(Verb::Get, "dogs//x", 2),
    ]);
    assert_eq!(
        result.unwrap_err(),
        BuildError::InvalidTemplate { index: 2, error: CompileError::InvalidSegment { position: 1 } }
    );
}

#[test]
fn into_entries_gives_the_routes() {
    let table = RouteTable::build(&vec![route(Verb::Get, "cats", 4), route(Verb::Get, "dogs", 5)]).unwrap();
    let entries = table.into_entries();
    assert_eq!(entries.len(), 2);
    assert_eq!(entries[1].handler, 5);
    let again = RouteTable::from_entries(entries).unwrap();
    assert_eq!(again.len(), 2);
}

#[test]
fn from_entries_checks_for_conflicts() {
    let first = RouteTable::build(&vec![route(Verb::Get, "cats/:id", 0)]).unwrap();
    let second = RouteTable::build(&vec![route(Verb::Get, "cats/:name", 1)]).unwrap();
    let mut entries = first.into_entries();
    entries.extend(second.into_entries());
    assert_eq!(RouteTable::from_entries(entries).unwrap_err(), ambiguous("cats/:id", "cats/:name"));
}

#[test]
fn copy_bindings_copies() {
    let bindings = vec![
        Binding { source: Source::Query, name: "q".to_string(), kind: Kind::Text, required: false },
        Binding { source: Source::Body, name: "b".to_string(), kind: Kind::Bytes, required: true },
    ];
    assert_eq!(copy_bindings(&bindings), bindings);
}
