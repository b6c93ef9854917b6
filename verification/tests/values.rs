use ruby_literal::error::{Expected, Frame, ParseError, Rule, Severity};
use ruby_literal::value::Value;
use ruby_literal::{parse_key_value, parse_value};

fn float(number: f64) -> Value {
    Value::Float(number.to_bits())
}

fn text(s: &str) -> Value {
    Value::Bytes(s.to_string())
}

#[test]
fn nil_is_null_with_nothing_left() {
    assert_eq!(parse_value("nil"), Ok(("", Value::Null)));
}

#[test]
fn array_of_every_scalar() {
    assert_eq!(
        parse_value("[1, 2.5, true, nil]"),
        Ok(("", Value::Array(vec![float(1.0), float(2.5), Value::Boolean(true), Value::Null])))
    );
}

#[test]
fn arrow_form_keeps_the_colon_of_the_key() {
    assert_eq!(parse_key_value(":foo => \"bar\""), Ok(("", (":foo".to_string(), text("bar")))));
}

#[test]
fn colon_form_takes_a_bare_key() {
    assert_eq!(parse_key_value("foo: \"bar\""), Ok(("", ("foo".to_string(), text("bar")))));
}

#[test]
fn escaped_delimiter_becomes_the_delimiter() {
    assert_eq!(parse_value("\"a\\\"b\""), Ok(("", text("a\"b"))));
}

#[test]
fn backslash_before_another_character_stays() {
    assert_eq!(parse_value("\"a\\nb\""), Ok(("", text("a\\nb"))));
}

#[test]
fn last_of_two_equal_keys_wins() {
    assert_eq!(
        parse_value("{\"a\": 1, \"a\": 2}"),
        Ok(("", Value::Object(vec![("a".to_string(), float(2.0))])))
    );
}

#[test]
fn unterminated_string_fails_hard_in_string() {
    assert_eq!(
        parse_value("\"abc"),
        Err(ParseError {
            severity: Severity::Failure,
            at: 4,
            expected: Expected::Char('"'),
            trail: vec![Frame { at: 0, rule: Rule::String }, Frame { at: 0, rule: Rule::Bytes }],
        })
    );
}

#[test]
fn unterminated_array_fails_hard_in_array() {
    assert_eq!(
        parse_value("[1, 2"),
        Err(ParseError {
            severity: Severity::Failure,
            at: 5,
            expected: Expected::Char(']'),
            trail: vec![Frame { at: 0, rule: Rule::Array }],
        })
    );
}
