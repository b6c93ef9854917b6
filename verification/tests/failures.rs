use ruby_literal::error::{Expected, Frame, ParseError, Rule, Severity};
use ruby_literal::{parse_key_value, parse_value};

fn mismatch(at: usize, expected: Expected) -> ParseError {
    ParseError { severity: Severity::Mismatch, at, expected, trail: vec![] }
}

fn failure(at: usize, expected: Expected, trail: Vec<(usize, Rule)>) -> ParseError {
    ParseError {
        severity: Severity::Failure,
        at,
        expected,
        trail: trail.into_iter().map(|(at, rule)| Frame { at, rule }).collect(),
    }
}

#[test]
fn no_value_is_a_mismatch_where_the_value_should_begin() {
    assert_eq!(parse_value("@"), Err(mismatch(0, Expected::Choice)));
    assert_eq!(parse_value("   @"), Err(mismatch(3, Expected::Choice)));
    assert_eq!(parse_value(""), Err(mismatch(0, Expected::Choice)));
    assert_eq!(parse_value("  "), Err(mismatch(2, Expected::Choice)));
}

#[test]
fn no_key_is_a_mismatch_where_the_key_should_begin() {
    assert_eq!(parse_key_value("@"), Err(mismatch(0, Expected::Choice)));
    assert_eq!(parse_key_value("  => 1"), Err(mismatch(2, Expected::Choice)));
    assert_eq!(parse_key_value(": 1"), Err(mismatch(0, Expected::Choice)));
}

#[test]
fn unterminated_object_fails_hard_in_map() {
    assert_eq!(
        parse_value("{a: 1"),
        Err(failure(5, Expected::Char('}'), vec![(0, Rule::Hash)]))
    );
}

#[test]
fn comma_without_a_value_is_not_taken() {
    assert_eq!(parse_value("[1, ]"), Err(failure(2, Expected::Char(']'), vec![(0, Rule::Array)])));
    assert_eq!(parse_value("{a: 1,}"), Err(failure(5, Expected::Char('}'), vec![(0, Rule::Hash)])));
}

#[test]
fn something_else_than_an_item_where_the_array_should_close() {
    assert_eq!(parse_value("[x]"), Err(failure(1, Expected::Char(']'), vec![(0, Rule::Array)])));
    assert_eq!(parse_value("[1 2]"), Err(failure(3, Expected::Char(']'), vec![(0, Rule::Array)])));
}

#[test]
fn key_without_its_separator_fails_hard() {
    assert_eq!(parse_key_value("foo 1"), Err(failure(4, Expected::Char(':'), vec![])));
    assert_eq!(parse_key_value(":foo 1"), Err(failure(5, Expected::Token, vec![])));
    assert_eq!(parse_key_value(":foo = 1"), Err(failure(5, Expected::Token, vec![])));
}

#[test]
fn quoted_and_digit_keys_commit_to_the_colon_form() {
    assert_eq!(parse_key_value("\"a\" => 1"), Err(failure(4, Expected::Char(':'), vec![])));
    assert_eq!(parse_key_value("12 => 1"), Err(failure(3, Expected::Char(':'), vec![])));
}

#[test]
fn value_owed_after_the_separator() {
    assert_eq!(parse_key_value("foo: @"), Err(failure(5, Expected::Choice, vec![])));
    assert_eq!(parse_key_value(":foo => "), Err(failure(8, Expected::Choice, vec![])));
    assert_eq!(
        parse_value("{a: }"),
        Err(failure(4, Expected::Choice, vec![(0, Rule::Hash)]))
    );
}

#[test]
fn trail_runs_from_the_innermost_rule_outward() {
    assert_eq!(
        parse_value(" {a: [1, {b: \"x"),
        Err(failure(
            15,
            Expected::Char('"'),
            vec![
                (13, Rule::String),
                (13, Rule::Bytes),
                (9, Rule::Hash),
                (5, Rule::Array),
                (1, Rule::Hash),
            ]
        ))
    );
}

#[test]
fn unterminated_quoted_key_fails_hard_in_string() {
    assert_eq!(
        parse_key_value("'key: 1"),
        Err(failure(7, Expected::Char('\''), vec![(0, Rule::String)]))
    );
}

#[test]
fn backslash_at_the_start_of_a_body_before_an_ordinary_character() {
    assert_eq!(
        parse_value("\"\\nabc\""),
        Err(failure(1, Expected::Char('"'), vec![(0, Rule::String), (0, Rule::Bytes)]))
    );
}

#[test]
fn two_inert_escapes_in_a_row() {
    assert_eq!(
        parse_value("\"a\\n\\tb\""),
        Err(failure(1, Expected::Char('"'), vec![(0, Rule::String), (0, Rule::Bytes)]))
    );
}

#[test]
fn backslash_as_the_last_character() {
    assert_eq!(
        parse_value("\"abc\\"),
        Err(failure(1, Expected::Char('"'), vec![(0, Rule::String), (0, Rule::Bytes)]))
    );
}

#[test]
fn offsets_count_bytes() {
    assert_eq!(
        parse_value("[\"é\", "),
        Err(failure(5, Expected::Char(']'), vec![(0, Rule::Array)]))
    );
    assert_eq!(
        parse_value("\"日本"),
        Err(failure(7, Expected::Char('"'), vec![(0, Rule::String), (0, Rule::Bytes)]))
    );
    assert_eq!(
        parse_value("{\"ключ\": [\"𝄞\", @]}"),
        Err(failure(20, Expected::Char(']'), vec![(13, Rule::Array), (0, Rule::Hash)]))
    );
}
