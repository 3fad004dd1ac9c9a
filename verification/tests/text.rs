use meerkat_controller::text::{characters, eq_ignoring_case, join_from, same_text, split_text, to_lower};

fn strings(items: &[&str]) -> Vec<String> {
    items.iter().map(|s| s.to_string()).collect()
}

#[test]
fn split_cuts_at_every_separator() {
    assert_eq!(split_text("cats/42", '/'), strings(&["cats", "42"]));
    assert_eq!(split_text("a/b/c", '/'), strings(&["a", "b", "c"]));
}

#[test]
fn split_of_a_text_without_separator_is_the_text() {
    assert_eq!(split_text("cats", '/'), strings(&["cats"]));
}

#[test]
fn split_of_the_empty_text_is_one_empty_piece() {
    assert_eq!(split_text("", '/'), strings(&[""]));
}

#[test]
fn split_keeps_empty_pieces_at_the_ends_and_between() {
    assert_eq!(split_text("/a//b/", '/'), strings(&["", "a", "", "b", ""]));
}

#[test]
fn split_counts_characters_not_bytes() {
    assert_eq!(split_text("né/ö", '/'), strings(&["né", "ö"]));
}

#[test]
fn join_from_joins_the_tail_with_slashes() {
    let parts = strings(&["files", "a", "b", "c"]);
    assert_eq!(join_from(&parts, 1), "a/b/c");
    assert_eq!(join_from(&parts, 0), "files/a/b/c");
    assert_eq!(join_from(&parts, 3), "c");
    assert_eq!(join_from(&parts, 4), "");
    assert_eq!(join_from(&parts, 5), "");
}

#[test]
fn join_undoes_split() {
    let text = "a//b/c/";
    let parts = split_text(text, '/');
    assert_eq!(join_from(&parts, 0), text);
}

#[test]
fn characters_lists_the_characters() {
    assert_eq!(characters("aé/"), vec!['a', 'é', '/']);
    assert_eq!(characters(""), Vec::<char>::new());
}

#[test]
fn same_text_compares_exactly() {
    assert!(same_text("GET", "GET"));
    assert!(!same_text("GET", "get"));
    assert!(!same_text("GET", "GE"));
    assert!(same_text("", ""));
}

#[test]
fn lower_case_of_ascii_capitals_only() {
    assert_eq!(to_lower('A'), 'a');
    assert_eq!(to_lower('Z'), 'z');
    assert_eq!(to_lower('a'), 'a');
    assert_eq!(to_lower('0'), '0');
    assert_eq!(to_lower('É'), 'É');
    assert_eq!(to_lower('['), '[');
    assert_eq!(to_lower('@'), '@');
}

#[test]
fn comparison_without_case() {
    assert!(eq_ignoring_case("Content-Type", "content-type"));
    assert!(eq_ignoring_case("X-ID", "x-id"));
    assert!(!eq_ignoring_case("X-ID", "x-idx"));
    assert!(!eq_ignoring_case("accept", "accepd"));
    assert!(!eq_ignoring_case("É", "é"));
}
