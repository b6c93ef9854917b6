use ruby_literal::error::{Expected, Frame, ParseError, Rule, Severity};
use ruby_literal::grammar::Class;
use ruby_literal::input::Input;
use ruby_literal::offsets::width;
use ruby_literal::text::{compare, digit, space, to_chars, word, Order};
use ruby_literal::value::Value;

fn mismatch(at: usize, expected: Expected) -> ParseError {
    ParseError { severity: Severity::Mismatch, at, expected, trail: vec![] }
}

#[test]
fn character_classes() {
    for c in [' ', '\t', '\r', '\n'] {
        assert!(space(c));
    }
    assert!(!space('\u{b}') && !space('\u{a0}') && !space('a'));
    assert!(digit('0') && digit('9') && !digit('a') && !digit('٣'));
    assert!(word('a') && word('Z') && word('_') && word('5'));
    assert!(!word('-') && !word('é') && !word(':') && !word(' '));
}

#[test]
fn order_of_texts() {
    assert_eq!(compare("a", "b"), Order::Before);
    assert_eq!(compare("b", "a"), Order::After);
    assert_eq!(compare("ab", "ab"), Order::Same);
    assert_eq!(compare("", ""), Order::Same);
    assert_eq!(compare("", "a"), Order::Before);
    assert_eq!(compare("ab", "abc"), Order::Before);
    assert_eq!(compare("abd", "abc"), Order::After);
    assert_eq!(compare("Z", "a"), Order::Before);
    assert_eq!(compare("z", "é"), Order::Before);
    assert_eq!(compare("\u{ffff}", "\u{10000}"), Order::Before);
}

#[test]
fn order_of_texts_is_that_of_str() {
    let samples = ["", "a", "ab", "b", "é", "z", "\u{ff5e}", "\u{1d11e}", ":a", "_"];
    for a in samples {
        for b in samples {
            let expected = match a.cmp(b) {
                std::cmp::Ordering::Less => Order::Before,
                std::cmp::Ordering::Equal => Order::Same,
                std::cmp::Ordering::Greater => Order::After,
            };
            assert_eq!(compare(a, b), expected);
        }
    }
}

#[test]
fn characters_of_a_text() {
    assert_eq!(to_chars("aé𝄞"), vec!['a', 'é', '𝄞']);
    assert_eq!(to_chars(""), Vec::<char>::new());
}

#[test]
fn widths_in_utf8() {
    assert_eq!(width('a'), 1);
    assert_eq!(width('\u{7f}'), 1);
    assert_eq!(width('\u{80}'), 2);
    assert_eq!(width('\u{7ff}'), 2);
    assert_eq!(width('\u{800}'), 3);
    assert_eq!(width('\u{ffff}'), 3);
    assert_eq!(width('\u{10000}'), 4);
    assert_eq!(width('\u{10ffff}'), 4);
}

#[test]
fn offsets_of_positions() {
    let input = Input::new("aé日𝄞b");
    assert_eq!(input.len(), 5);
    assert_eq!(input.offset(0), 0);
    assert_eq!(input.offset(1), 1);
    assert_eq!(input.offset(2), 3);
    assert_eq!(input.offset(3), 6);
    assert_eq!(input.offset(4), 10);
    assert_eq!(input.offset(5), 11);
    assert_eq!(input.offset(6), 11);
}

#[test]
fn in_bytes_turns_every_position() {
    let input = Input::new("é[é");
    let e = ParseError {
        severity: Severity::Failure,
        at: 3,
        expected: Expected::Char(']'),
        trail: vec![Frame { at: 1, rule: Rule::Array }, Frame { at: 0, rule: Rule::Hash }],
    };
    assert_eq!(
        input.in_bytes(e),
        ParseError {
            severity: Severity::Failure,
            at: 5,
            expected: Expected::Char(']'),
            trail: vec![Frame { at: 2, rule: Rule::Array }, Frame { at: 0, rule: Rule::Hash }],
        }
    );
}

#[test]
fn sees_and_copy() {
    let input = Input::new("héllo");
    assert!(input.sees(1, 'é'));
    assert!(!input.sees(1, 'e'));
    assert!(!input.sees(5, 'o'));
    assert_eq!(input.copy(1, 4), "éll");
    assert_eq!(input.copy(2, 2), "");
}

#[test]
fn whitespace_skipper_never_fails() {
    let input = Input::new(" \t\r\n x ");
    assert_eq!(input.sp(0), 5);
    assert_eq!(input.sp(5), 5);
    assert_eq!(input.sp(6), 7);
    assert_eq!(input.sp(7), 7);
}

#[test]
fn runs_of_each_class() {
    let input = Input::new("ab_1-22  ");
    assert_eq!(input.scan(0, Class::Word), 4);
    assert_eq!(input.scan(0, Class::Digit), 0);
    assert_eq!(input.scan(5, Class::Digit), 7);
    assert_eq!(input.scan(7, Class::Space), 9);
}

#[test]
fn body_and_where_it_ends() {
    let input = Input::new("ab\\\"c\" rest");
    assert_eq!(input.parse_inner_str('"', 0), ("ab\"c".to_string(), 5));
    let input = Input::new("abc");
    assert_eq!(input.parse_inner_str('"', 0), ("abc".to_string(), 3));
    let input = Input::new("\\x\"");
    assert_eq!(input.parse_inner_str('"', 0), ("".to_string(), 0));
}

#[test]
fn string_in_one_delimiter() {
    let input = Input::new("x'a' ");
    assert_eq!(input.parse_str('\'', 1), Ok(("a".to_string(), 4)));
    assert_eq!(
        input.parse_str('"', 1),
        Err(ParseError {
            severity: Severity::Mismatch,
            at: 1,
            expected: Expected::Char('"'),
            trail: vec![Frame { at: 1, rule: Rule::String }],
        })
    );
}

#[test]
fn string_in_either_delimiter() {
    let input = Input::new("'a'\"b\"c");
    assert_eq!(input.parse_bytes(0), Ok(("a".to_string(), 3)));
    assert_eq!(input.parse_bytes(3), Ok(("b".to_string(), 6)));
    assert_eq!(
        input.parse_bytes(6),
        Err(ParseError {
            severity: Severity::Mismatch,
            at: 6,
            expected: Expected::Char('\''),
            trail: vec![Frame { at: 6, rule: Rule::String }, Frame { at: 6, rule: Rule::Bytes }],
        })
    );
}

#[test]
fn keys_of_each_kind() {
    let input = Input::new("foo_1: :bar 42 :");
    assert_eq!(input.parse_symbol_key(0), Ok(("foo_1".to_string(), 5)));
    assert_eq!(input.parse_symbol_key(5), Err(mismatch(5, Expected::Word)));
    assert_eq!(input.parse_colon_key(7), Ok((":bar".to_string(), 11)));
    assert_eq!(input.parse_colon_key(0), Err(mismatch(0, Expected::Char(':'))));
    assert_eq!(input.parse_colon_key(15), Err(mismatch(16, Expected::Word)));
    assert_eq!(input.parse_digit_key(12), Ok(("42".to_string(), 14)));
    assert_eq!(input.parse_digit_key(0), Err(mismatch(0, Expected::Digits)));
}

#[test]
fn key_of_the_colon_form() {
    let input = Input::new("'q' bare 7 :sym");
    assert_eq!(input.parse_key_colon_hash(0), Ok(("q".to_string(), 3)));
    assert_eq!(input.parse_key_colon_hash(4), Ok(("bare".to_string(), 8)));
    assert_eq!(input.parse_key_colon_hash(9), Ok(("7".to_string(), 10)));
    assert_eq!(input.parse_key_colon_hash(11), Err(mismatch(11, Expected::Choice)));
}

#[test]
fn key_of_the_arrow_form() {
    let input = Input::new("\"q\" bare 7 :sym");
    assert_eq!(input.parse_key_arrow_hash(0), Ok(("q".to_string(), 3)));
    assert_eq!(input.parse_key_arrow_hash(4), Err(mismatch(4, Expected::Choice)));
    assert_eq!(input.parse_key_arrow_hash(9), Ok(("7".to_string(), 10)));
    assert_eq!(input.parse_key_arrow_hash(11), Ok((":sym".to_string(), 15)));
}

#[test]
fn nil_and_boolean_at_a_position() {
    let input = Input::new("nil true false ni");
    assert_eq!(input.parse_nil(0), Ok((Value::Null, 3)));
    assert_eq!(input.parse_nil(15), Err(mismatch(15, Expected::Token)));
    assert_eq!(input.parse_boolean(4), Ok((true, 8)));
    assert_eq!(input.parse_boolean(9), Ok((false, 14)));
    assert_eq!(input.parse_boolean(0), Err(mismatch(0, Expected::Token)));
}

#[test]
fn number_at_a_position() {
    let input = Input::new("é 2.5]");
    assert_eq!(input.parse_number(2), Ok((2.5f64.to_bits(), 5)));
    assert_eq!(input.parse_number(0), Err(mismatch(0, Expected::Number)));
    assert_eq!(input.parse_number(6), Err(mismatch(6, Expected::Number)));
}

#[test]
fn value_and_pair_at_a_position() {
    let input = Input::new("x [nil] k: 1 :s => 2");
    assert_eq!(input.parse_value(1), Ok((Value::Array(vec![Value::Null]), 7)));
    assert_eq!(input.parse_array(2), Ok((Value::Array(vec![Value::Null]), 7)));
    assert_eq!(
        input.parse_key_value(7),
        Ok((("k".to_string(), Value::Float(1.0f64.to_bits())), 12))
    );
    assert_eq!(
        input.parse_key_value_colon(7),
        Ok((("k".to_string(), Value::Float(1.0f64.to_bits())), 12))
    );
    assert_eq!(
        input.parse_key_value_arrow(12),
        Ok(((":s".to_string(), Value::Float(2.0f64.to_bits())), 20))
    );
    assert_eq!(input.parse_key_value_colon(12), Err(mismatch(13, Expected::Choice)));
}

#[test]
fn object_at_a_position() {
    let input = Input::new("[{b: 1, a: 2}]");
    assert_eq!(
        input.parse_hash(1),
        Ok((
            Value::Object(vec![
                ("a".to_string(), Value::Float(2.0f64.to_bits())),
                ("b".to_string(), Value::Float(1.0f64.to_bits())),
            ]),
            13
        ))
    );
    assert_eq!(
        input.parse_hash(0),
        Err(ParseError {
            severity: Severity::Mismatch,
            at: 0,
            expected: Expected::Char('{'),
            trail: vec![Frame { at: 0, rule: Rule::Hash }],
        })
    );
}

#[test]
fn names_of_the_rules() {
    assert_eq!(Rule::String.name(), "string");
    assert_eq!(Rule::Bytes.name(), "bytes");
    assert_eq!(Rule::Array.name(), "array");
    assert_eq!(Rule::Hash.name(), "map");
}

#[test]
fn building_failures() {
    let e = ParseError::mismatch(3, Expected::Word);
    assert!(!e.is_hard());
    let e = e.within(1, Rule::Array).hardened().within(0, Rule::Hash);
    assert!(e.is_hard());
    assert_eq!(
        e,
        ParseError {
            severity: Severity::Failure,
            at: 3,
            expected: Expected::Word,
            trail: vec![Frame { at: 1, rule: Rule::Array }, Frame { at: 0, rule: Rule::Hash }],
        }
    );
    assert!(ParseError::failure(0, Expected::Token).is_hard());
}
