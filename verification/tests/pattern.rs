use meerkat_controller::pattern::{CompileError, PathPattern};

fn path(items: &[&str]) -> Vec<String> {
    items.iter().map(|s| s.to_string()).collect()
}

fn pairs(items: &[(&str, &str)]) -> Vec<(String, String)> {
    items.iter().map(|(k, v)| (k.to_string(), v.to_string())).collect()
}

fn compile(template: &str) -> PathPattern {
    PathPattern::compile(template).unwrap()
}

#[test]
fn compile_reads_literals_captures_and_wildcards() {
    let pattern = compile("cats/:id/files/*rest");
    assert_eq!(pattern.len(), 4);
    assert_eq!(pattern.template(), "cats/:id/files/*rest");
    assert_eq!(pattern.first_binding(), Some(1));
}

#[test]
fn the_empty_template_has_no_segments() {
    let pattern = compile("");
    assert_eq!(pattern.len(), 0);
    assert_eq!(pattern.template(), "");
    assert_eq!(pattern.match_path(&path(&[])), Some(pairs(&[])));
    assert_eq!(pattern.match_path(&path(&["cats"])), None);
}

#[test]
fn literal_characters_of_the_grammar_are_accepted() {
    let pattern = compile("v1.0/a-b_c~d/X9");
    assert_eq!(pattern.len(), 3);
    assert_eq!(pattern.first_binding(), None);
}

#[test]
fn an_empty_segment_is_invalid() {
    assert_eq!(PathPattern::compile("cats//x"), Err(CompileError::InvalidSegment { position: 1 }));
    assert_eq!(PathPattern::compile("/cats"), Err(CompileError::InvalidSegment { position: 0 }));
    assert_eq!(PathPattern::compile("cats/"), Err(CompileError::InvalidSegment { position: 1 }));
    assert_eq!(PathPattern::compile("/"), Err(CompileError::InvalidSegment { position: 0 }));
}

#[test]
fn an_unsupported_character_is_invalid() {
    assert_eq!(PathPattern::compile("a b"), Err(CompileError::InvalidSegment { position: 0 }));
    assert_eq!(PathPattern::compile("cats/na:me"), Err(CompileError::InvalidSegment { position: 1 }));
    assert_eq!(PathPattern::compile("cats/:i-d"), Err(CompileError::InvalidSegment { position: 1 }));
    assert_eq!(PathPattern::compile("cats/é"), Err(CompileError::InvalidSegment { position: 1 }));
    assert_eq!(PathPattern::compile("a/b/c?d"), Err(CompileError::InvalidSegment { position: 2 }));
}

#[test]
fn an_empty_name_is_invalid() {
    assert_eq!(PathPattern::compile(":"), Err(CompileError::InvalidSegment { position: 0 }));
    assert_eq!(PathPattern::compile("cats/*"), Err(CompileError::InvalidSegment { position: 1 }));
}

#[test]
fn a_wildcard_before_the_end_is_invalid() {
    assert_eq!(PathPattern::compile("*rest/x"), Err(CompileError::InvalidSegment { position: 0 }));
    assert_eq!(PathPattern::compile("a/*rest/:id"), Err(CompileError::InvalidSegment { position: 1 }));
}

#[test]
fn a_repeated_name_is_a_duplicate_capture() {
    assert_eq!(
        PathPattern::compile("cats/:id/:id"),
        Err(CompileError::DuplicateCapture { position: 2 })
    );
    assert_eq!(PathPattern::compile(":a/*a"), Err(CompileError::DuplicateCapture { position: 1 }));
    assert_eq!(
        PathPattern::compile(":a/x/:b/:a/:b"),
        Err(CompileError::DuplicateCapture { position: 3 })
    );
}

#[test]
fn the_first_faulty_segment_decides_the_error() {
    assert_eq!(
        PathPattern::compile(":id/:id//x"),
        Err(CompileError::DuplicateCapture { position: 1 })
    );
    assert_eq!(PathPattern::compile("a//:id/:id"), Err(CompileError::InvalidSegment { position: 1 }));
}

#[test]
fn names_are_case_sensitive() {
    assert!(PathPattern::compile(":id/:ID").is_ok());
}

#[test]
fn a_literal_template_matches_itself_only() {
    let pattern = compile("cats/all");
    assert_eq!(pattern.match_path(&path(&["cats", "all"])), Some(pairs(&[])));
    assert_eq!(pattern.match_path(&path(&["cats"])), None);
    assert_eq!(pattern.match_path(&path(&["cats", "All"])), None);
    assert_eq!(pattern.match_path(&path(&["cats", "all", "x"])), None);
    assert_eq!(pattern.match_path(&path(&["all", "cats"])), None);
    assert_eq!(pattern.match_path(&path(&[])), None);
}

#[test]
fn a_capture_binds_one_segment() {
    let pattern = compile("cats/:id");
    assert_eq!(pattern.match_path(&path(&["cats", "42"])), Some(pairs(&[("id", "42")])));
    assert_eq!(pattern.match_path(&path(&["cats"])), None);
    assert_eq!(pattern.match_path(&path(&["cats", "42", "x"])), None);
}

#[test]
fn a_capture_does_not_match_an_empty_segment() {
    let pattern = compile("cats/:id");
    assert_eq!(pattern.match_path(&path(&["cats", ""])), None);
}

#[test]
fn a_capture_matches_a_segment_that_holds_any_characters() {
    let pattern = compile("cats/:id");
    assert_eq!(pattern.match_path(&path(&["cats", "a b/é"])), Some(pairs(&[("id", "a b/é")])));
}

#[test]
fn a_wildcard_binds_all_the_segments_that_are_left() {
    let pattern = compile("files/*rest");
    assert_eq!(
        pattern.match_path(&path(&["files", "a", "b", "c"])),
        Some(pairs(&[("rest", "a/b/c")]))
    );
    assert_eq!(pattern.match_path(&path(&["files", "a"])), Some(pairs(&[("rest", "a")])));
    assert_eq!(pattern.match_path(&path(&["files"])), Some(pairs(&[("rest", "")])));
    assert_eq!(pattern.match_path(&path(&["other", "a"])), None);
    assert_eq!(pattern.match_path(&path(&[])), None);
}

#[test]
fn captures_come_in_the_order_of_the_segments() {
    let pattern = compile("users/:uid/posts/:pid/*tail");
    assert_eq!(
        pattern.match_path(&path(&["users", "7", "posts", "9", "x", "y"])),
        Some(pairs(&[("uid", "7"), ("pid", "9"), ("tail", "x/y")]))
    );
}

#[test]
fn matching_the_path_made_from_a_template_gives_the_values_back() {
    let pattern = compile("users/:uid/posts/:pid");
    for (uid, pid) in [("7", "9"), ("alice", "hello-world"), ("a b", "é")] {
        let made = path(&["users", uid, "posts", pid]);
        assert_eq!(pattern.match_path(&made), Some(pairs(&[("uid", uid), ("pid", pid)])));
    }
}

#[test]
fn the_text_of_a_compiled_template_is_the_template() {
    for template in ["", "cats", "cats/:id", "a/:b/c/*d", "*all", "v1.0/x-y"] {
        assert_eq!(compile(template).template(), template);
        assert_eq!(compile(&compile(template).template()), compile(template));
    }
}

#[test]
fn same_shape_ignores_the_names_of_captures() {
    assert!(compile("cats/:id").same_shape(&compile("cats/:x")));
    assert!(compile("a/*rest").same_shape(&compile("a/*tail")));
    assert!(compile("").same_shape(&compile("")));
    assert!(!compile("cats/:id").same_shape(&compile("cats/special")));
    assert!(!compile("cats/:id").same_shape(&compile("dogs/:id")));
    assert!(!compile("cats/:id").same_shape(&compile("cats/*id")));
    assert!(!compile("cats/:id").same_shape(&compile("cats/:id/x")));
    assert!(!compile("cats").same_shape(&compile("Cats")));
}

#[test]
fn first_binding_finds_the_first_segment_that_is_not_a_literal() {
    assert_eq!(compile("a/b/c").first_binding(), None);
    assert_eq!(compile("").first_binding(), None);
    assert_eq!(compile(":a/b").first_binding(), Some(0));
    assert_eq!(compile("a/b/*c").first_binding(), Some(2));
}

#[test]
fn under_puts_the_prefix_in_front() {
    let pattern = compile(":id/toys").under(&compile("api/cats")).unwrap();
    assert_eq!(pattern.template(), "api/cats/:id/toys");
    assert_eq!(
        pattern.match_path(&path(&["api", "cats", "3", "toys"])),
        Some(pairs(&[("id", "3")]))
    );
    assert_eq!(compile("").under(&compile("cats")).unwrap().template(), "cats");
    assert_eq!(compile("cats").under(&compile("")).unwrap().template(), "cats");
}

#[test]
fn under_refuses_a_prefix_that_binds() {
    assert_eq!(compile(":id").under(&compile("cats/:id")), None);
    assert_eq!(compile("x").under(&compile("*all")), None);
    assert_eq!(compile("x").under(&compile(":a/b")), None);
}

#[test]
fn duplicate_gives_an_equal_template() {
    let pattern = compile("a/:b/*c");
    assert_eq!(pattern.duplicate(), pattern);
}
