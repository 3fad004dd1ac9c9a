use meerkat_controller::scalar::{
    parse_boolean, parse_integer, parse_uuid, write_boolean, write_integer, write_uuid,
};

#[test]
fn integers_are_read_in_decimal() {
    assert_eq!(parse_integer("0"), Some(0));
    assert_eq!(parse_integer("42"), Some(42));
    assert_eq!(parse_integer("-42"), Some(-42));
    assert_eq!(parse_integer("-0"), Some(0));
    assert_eq!(parse_integer("007"), Some(7));
}

#[test]
fn integers_at_the_ends_of_the_range_are_read() {
    assert_eq!(parse_integer("9223372036854775807"), Some(i64::MAX));
    assert_eq!(parse_integer("-9223372036854775808"), Some(i64::MIN));
    assert_eq!(parse_integer("0000000000000000000000009223372036854775807"), Some(i64::MAX));
}

#[test]
fn integers_out_of_range_are_not_read() {
    assert_eq!(parse_integer("9223372036854775808"), None);
    assert_eq!(parse_integer("-9223372036854775809"), None);
    assert_eq!(parse_integer("18446744073709551616"), None);
    assert_eq!(parse_integer("99999999999999999999999999999999"), None);
}

#[test]
fn what_is_not_a_decimal_integer_is_not_read() {
    assert_eq!(parse_integer(""), None);
    assert_eq!(parse_integer("-"), None);
    assert_eq!(parse_integer("+5"), None);
    assert_eq!(parse_integer("12a"), None);
    assert_eq!(parse_integer("abc"), None);
    assert_eq!(parse_integer("1 2"), None);
    assert_eq!(parse_integer("--1"), None);
    assert_eq!(parse_integer("1-"), None);
    assert_eq!(parse_integer("٣"), None);
    assert_eq!(parse_integer("99999999999999999999x"), None);
}

#[test]
fn booleans_are_true_or_false() {
    assert_eq!(parse_boolean("true"), Some(true));
    assert_eq!(parse_boolean("false"), Some(false));
    assert_eq!(parse_boolean("True"), None);
    assert_eq!(parse_boolean("1"), None);
    assert_eq!(parse_boolean(""), None);
}

#[test]
fn uuids_are_read_in_hyphenated_form() {
    assert_eq!(parse_uuid("00000000-0000-0000-0000-000000000000"), Some(0));
    assert_eq!(parse_uuid("00000000-0000-0000-0000-000000000001"), Some(1));
    assert_eq!(
        parse_uuid("ffffffff-ffff-ffff-ffff-ffffffffffff"),
        Some(u128::MAX)
    );
    assert_eq!(
        parse_uuid("123e4567-e89b-12d3-a456-426614174000"),
        Some(0x123e4567_e89b_12d3_a456_426614174000)
    );
    assert_eq!(
        parse_uuid("123E4567-E89B-12D3-A456-426614174000"),
        Some(0x123e4567_e89b_12d3_a456_426614174000)
    );
}

#[test]
fn what_is_not_a_uuid_is_not_read() {
    assert_eq!(parse_uuid(""), None);
    assert_eq!(parse_uuid("123e4567e89b12d3a456426614174000"), None);
    assert_eq!(parse_uuid("123e4567-e89b-12d3-a456-42661417400"), None);
    assert_eq!(parse_uuid("123e4567-e89b-12d3-a456-4266141740000"), None);
    assert_eq!(parse_uuid("123e4567-e89b-12d3-a456_426614174000"), None);
    assert_eq!(parse_uuid("123e4567-e89b-12d3-a456-42661417400g"), None);
    assert_eq!(parse_uuid("123e4567--89b-12d3-a456-426614174000"), None);
    assert_eq!(parse_uuid("-23e4567-e89b-12d3-a456-426614174000"), None);
}

#[test]
fn integers_are_written_in_decimal() {
    assert_eq!(write_integer(0), "0");
    assert_eq!(write_integer(7), "7");
    assert_eq!(write_integer(10), "10");
    assert_eq!(write_integer(1000), "1000");
    assert_eq!(write_integer(-1), "-1");
    assert_eq!(write_integer(-120), "-120");
    assert_eq!(write_integer(i64::MAX), "9223372036854775807");
    assert_eq!(write_integer(i64::MIN), "-9223372036854775808");
}

#[test]
fn booleans_are_written() {
    assert_eq!(write_boolean(true), "true");
    assert_eq!(write_boolean(false), "false");
}

#[test]
fn uuids_are_written_in_lower_case_with_hyphens() {
    assert_eq!(write_uuid(0), "00000000-0000-0000-0000-000000000000");
    assert_eq!(write_uuid(1), "00000000-0000-0000-0000-000000000001");
    assert_eq!(write_uuid(u128::MAX), "ffffffff-ffff-ffff-ffff-ffffffffffff");
    assert_eq!(
        write_uuid(0x123e4567_e89b_12d3_a456_426614174000),
        "123e4567-e89b-12d3-a456-426614174000"
    );
    assert_eq!(
        write_uuid(0x0123456789abcdef_fedcba9876543210),
        "01234567-89ab-cdef-fedc-ba9876543210"
    );
}

#[test]
fn reading_what_was_written_gives_the_value_back() {
    for v in [0i64, 1, -1, 10, -10, 123456789, i64::MAX, i64::MIN] {
        assert_eq!(parse_integer(&write_integer(v)), Some(v));
    }
    for u in [0u128, 1, 255, 0x123e4567_e89b_12d3_a456_426614174000, u128::MAX] {
        assert_eq!(parse_uuid(&write_uuid(u)), Some(u));
    }
    for b in [true, false] {
        assert_eq!(parse_boolean(&write_boolean(b)), Some(b));
    }
}
