use meerkat_controller::request::{
    find_all, find_first, parse_query, split_path, Request, Verb,
};

fn strings(items: &[&str]) -> Vec<String> {
    items.iter().map(|s| s.to_string()).collect()
}

fn pairs(items: &[(&str, &str)]) -> Vec<(String, String)> {
    items.iter().map(|(k, v)| (k.to_string(), v.to_string())).collect()
}

#[test]
fn verbs_are_read_in_upper_case() {
    assert_eq!(Verb::parse("GET"), Some(Verb::Get));
    assert_eq!(Verb::parse("POST"), Some(Verb::Post));
    assert_eq!(Verb::parse("PATCH"), Some(Verb::Patch));
    assert_eq!(Verb::parse("PUT"), Some(Verb::Put));
    assert_eq!(Verb::parse("DELETE"), Some(Verb::Delete));
    assert_eq!(Verb::parse("HEAD"), Some(Verb::Head));
    assert_eq!(Verb::parse("OPTIONS"), Some(Verb::Options));
    assert_eq!(Verb::parse("get"), None);
    assert_eq!(Verb::parse("TRACE"), None);
    assert_eq!(Verb::parse(""), None);
}

#[test]
fn verbs_are_written_as_they_are_read() {
    for verb in [
        Verb::Get,
        Verb::Post,
        Verb::Patch,
        Verb::Put,
        Verb::Delete,
        Verb::Head,
        Verb::Options,
    ] {
        assert_eq!(Verb::parse(verb.as_str()), Some(verb));
    }
    assert_eq!(Verb::Delete.as_str(), "DELETE");
}

#[test]
fn a_path_is_cut_at_its_slashes() {
    assert_eq!(split_path("/cats/42"), Some(strings(&["cats", "42"])));
    assert_eq!(split_path("/cats"), Some(strings(&["cats"])));
    assert_eq!(split_path("/cats/special"), Some(strings(&["cats", "special"])));
}

#[test]
fn the_root_path_has_no_segments() {
    assert_eq!(split_path("/"), Some(strings(&[])));
}

#[test]
fn a_path_keeps_its_empty_segments() {
    assert_eq!(split_path("/cats/"), Some(strings(&["cats", ""])));
    assert_eq!(split_path("//cats"), Some(strings(&["", "cats"])));
}

#[test]
fn a_path_has_to_start_with_a_slash() {
    assert_eq!(split_path("cats/42"), None);
    assert_eq!(split_path(""), None);
}

#[test]
fn a_query_string_is_cut_into_pairs() {
    assert_eq!(parse_query("a=1&b=2"), pairs(&[("a", "1"), ("b", "2")]));
    assert_eq!(parse_query("a=1&b=2&a=3"), pairs(&[("a", "1"), ("b", "2"), ("a", "3")]));
}

#[test]
fn an_empty_query_string_has_no_pairs() {
    assert_eq!(parse_query(""), pairs(&[]));
    assert_eq!(parse_query("&&"), pairs(&[]));
}

#[test]
fn a_piece_is_cut_at_its_first_equals_sign() {
    assert_eq!(parse_query("a=b=c"), pairs(&[("a", "b=c")]));
    assert_eq!(parse_query("flag"), pairs(&[("flag", "")]));
    assert_eq!(parse_query("a="), pairs(&[("a", "")]));
    assert_eq!(parse_query("=v"), pairs(&[("", "v")]));
    assert_eq!(parse_query("="), pairs(&[("", "")]));
    assert_eq!(parse_query("a=1&&b"), pairs(&[("a", "1"), ("b", "")]));
    assert_eq!(parse_query("é=ö"), pairs(&[("é", "ö")]));
}

#[test]
fn find_all_gives_every_value_of_a_key() {
    let query = pairs(&[("a", "1"), ("b", "2"), ("a", "3")]);
    assert_eq!(find_all(&query, "a"), strings(&["1", "3"]));
    assert_eq!(find_all(&query, "b"), strings(&["2"]));
    assert_eq!(find_all(&query, "c"), strings(&[]));
    assert_eq!(find_all(&query, "A"), strings(&[]));
}

#[test]
fn find_first_gives_the_first_value() {
    let headers = pairs(&[("Accept", "text/plain"), ("X-Id", "7"), ("x-id", "8")]);
    assert_eq!(find_first(&headers, "x-id", true), Some("7".to_string()));
    assert_eq!(find_first(&headers, "x-id", false), Some("8".to_string()));
    assert_eq!(find_first(&headers, "ACCEPT", true), Some("text/plain".to_string()));
    assert_eq!(find_first(&headers, "ACCEPT", false), None);
    assert_eq!(find_first(&headers, "missing", true), None);
}

#[test]
fn a_request_is_made_from_its_parts() {
    let request = Request::parse(
        "GET",
        "/cats/42",
        "full=true",
        pairs(&[("Accept", "*/*")]),
        vec![1, 2, 3],
    );
    assert_eq!(
        request,
        Some(Request {
            verb: Verb::Get,
            path: strings(&["cats", "42"]),
            query: pairs(&[("full", "true")]),
            headers: pairs(&[("Accept", "*/*")]),
            body: vec![1, 2, 3],
        })
    );
}

#[test]
fn a_request_with_an_unknown_verb_or_a_bad_path_is_refused() {
    assert_eq!(Request::parse("FETCH", "/cats", "", vec![], vec![]), None);
    assert_eq!(Request::parse("GET", "cats", "", vec![], vec![]), None);
}
