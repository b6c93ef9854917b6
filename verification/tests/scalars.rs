use ruby_literal::error::{Expected, ParseError, Severity};
use ruby_literal::number::read_number;
use ruby_literal::value::Value;
use ruby_literal::parse_value;

fn number(x: f64) -> Value {
    Value::Float(x.to_bits())
}

fn text(s: &str) -> Value {
    Value::Bytes(s.to_string())
}

#[test]
fn whitespace_before_is_taken_and_after_is_left() {
    assert_eq!(parse_value(" \t\r\n nil \n"), Ok((" \n", Value::Null)));
}

#[test]
fn words_match_as_prefixes() {
    assert_eq!(parse_value("nilx"), Ok(("x", Value::Null)));
    assert_eq!(parse_value("truest"), Ok(("st", Value::Boolean(true))));
    assert_eq!(parse_value("false!"), Ok(("!", Value::Boolean(false))));
}

#[test]
fn booleans() {
    assert_eq!(parse_value("true"), Ok(("", Value::Boolean(true))));
    assert_eq!(parse_value("false"), Ok(("", Value::Boolean(false))));
}

#[test]
fn numbers_in_decimal_and_exponent_form() {
    assert_eq!(parse_value("1"), Ok(("", number(1.0))));
    assert_eq!(parse_value("-2.5"), Ok(("", number(-2.5))));
    assert_eq!(parse_value("+.5"), Ok(("", number(0.5))));
    assert_eq!(parse_value("1e3"), Ok(("", number(1000.0))));
    assert_eq!(parse_value("123E-02 rest"), Ok((" rest", number(1.23))));
    assert_eq!(parse_value("7."), Ok(("", number(7.0))));
}

#[test]
fn number_stops_where_the_literal_ends() {
    assert_eq!(parse_value("12abc"), Ok(("abc", number(12.0))));
    assert_eq!(parse_value("1.5.2"), Ok((".2", number(1.5))));
}

#[test]
fn infinities_and_not_a_number() {
    assert_eq!(parse_value("inf"), Ok(("", number(f64::INFINITY))));
    assert_eq!(parse_value("infinity"), Ok(("inity", number(f64::INFINITY))));
    match parse_value("NaN") {
        Ok(("", Value::Float(bits))) => assert!(f64::from_bits(bits).is_nan()),
        other => panic!("unexpected: {:?}", other),
    }
}

#[test]
fn exponent_without_digits_fails_hard_at_the_number() {
    assert_eq!(
        parse_value("  1e"),
        Err(ParseError {
            severity: Severity::Failure,
            at: 2,
            expected: Expected::Number,
            trail: vec![],
        })
    );
}

#[test]
fn read_number_places_the_end_by_what_is_left() {
    assert_eq!(read_number(Ok((3, 77)), 10, 5), Ok((77, 12)));
    assert_eq!(read_number(Ok((0, 77)), 10, 5), Ok((77, 15)));
    assert_eq!(read_number(Ok((5, 77)), 10, 5), Ok((77, 10)));
}

#[test]
fn read_number_rejects_more_left_than_given() {
    assert_eq!(
        read_number(Ok((6, 77)), 10, 5),
        Err(ParseError {
            severity: Severity::Mismatch,
            at: 10,
            expected: Expected::Number,
            trail: vec![],
        })
    );
}

#[test]
fn read_number_keeps_the_severity() {
    assert_eq!(
        read_number(Err(true), 4, 9),
        Err(ParseError {
            severity: Severity::Failure,
            at: 4,
            expected: Expected::Number,
            trail: vec![],
        })
    );
    assert_eq!(
        read_number(Err(false), 4, 9),
        Err(ParseError {
            severity: Severity::Mismatch,
            at: 4,
            expected: Expected::Number,
            trail: vec![],
        })
    );
}

#[test]
fn empty_strings() {
    assert_eq!(parse_value("\"\""), Ok(("", text(""))));
    assert_eq!(parse_value("''"), Ok(("", text(""))));
}

#[test]
fn each_quote_is_plain_inside_the_other() {
    assert_eq!(parse_value("'a\"b'"), Ok(("", text("a\"b"))));
    assert_eq!(parse_value("\"a'b\""), Ok(("", text("a'b"))));
}

#[test]
fn escaped_backslash_becomes_one_backslash() {
    assert_eq!(parse_value("\"a\\\\b\""), Ok(("", text("a\\b"))));
    assert_eq!(parse_value("\"\\\\\""), Ok(("", text("\\"))));
}

#[test]
fn escaped_single_quote_in_single_quotes() {
    assert_eq!(parse_value("'it\\'s'"), Ok(("", text("it's"))));
}

#[test]
fn backslash_before_the_other_quote_stays() {
    assert_eq!(parse_value("'a\\\"b'"), Ok(("", text("a\\\"b"))));
}

#[test]
fn escapes_may_open_and_close_the_body() {
    assert_eq!(parse_value("\"\\\"x\\\"\""), Ok(("", text("\"x\""))));
}

#[test]
fn inert_escapes_need_an_ordinary_character_before_each() {
    assert_eq!(parse_value("\"a\\nb\\tc\""), Ok(("", text("a\\nb\\tc"))));
}

#[test]
fn text_beyond_ascii() {
    assert_eq!(parse_value("\"héllo → wörld\" tail"), Ok((" tail", text("héllo → wörld"))));
    assert_eq!(parse_value("'日本語'"), Ok(("", text("日本語"))));
}

#[test]
fn string_ends_at_the_first_free_delimiter() {
    assert_eq!(parse_value("\"a\"b\""), Ok(("b\"", text("a"))));
}
