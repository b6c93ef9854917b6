use ruby_literal::object::upsert;
use ruby_literal::value::Value;
use ruby_literal::{parse_key_value, parse_value};

fn number(x: f64) -> Value {
    Value::Float(x.to_bits())
}

fn entry(key: &str, value: Value) -> (String, Value) {
    (key.to_string(), value)
}

#[test]
fn keys_come_out_sorted_and_once() {
    assert_eq!(
        parse_value("{\"b\": 1, \"a\": 2, \"b\": 3}"),
        Ok(("", Value::Object(vec![entry("a", number(2.0)), entry("b", number(3.0))])))
    );
}

#[test]
fn keys_are_sorted_whatever_their_order_in_the_text() {
    assert_eq!(
        parse_value("{zeta: 1, alpha: 2, mid: 3}"),
        Ok((
            "",
            Value::Object(vec![
                entry("alpha", number(2.0)),
                entry("mid", number(3.0)),
                entry("zeta", number(1.0)),
            ])
        ))
    );
}

#[test]
fn a_shorter_key_comes_before_its_extensions() {
    assert_eq!(
        parse_value("{ab: 1, a: 2, abc: 3}"),
        Ok((
            "",
            Value::Object(vec![
                entry("a", number(2.0)),
                entry("ab", number(1.0)),
                entry("abc", number(3.0)),
            ])
        ))
    );
}

#[test]
fn both_forms_of_pair_may_stand_in_one_object() {
    assert_eq!(
        parse_value("{:a => 1, b: 2}"),
        Ok(("", Value::Object(vec![entry(":a", number(1.0)), entry("b", number(2.0))])))
    );
}

#[test]
fn digits_are_a_key_as_text() {
    assert_eq!(
        parse_value("{1: \"x\"}"),
        Ok(("", Value::Object(vec![entry("1", Value::Bytes("x".to_string()))])))
    );
}

#[test]
fn quoted_keys_in_either_quote() {
    assert_eq!(
        parse_value("{'a b': nil, \"c d\": true}"),
        Ok(("", Value::Object(vec![entry("a b", Value::Null), entry("c d", Value::Boolean(true))])))
    );
}

#[test]
fn empty_object_with_and_without_space() {
    assert_eq!(parse_value("{}"), Ok(("", Value::Object(vec![]))));
    assert_eq!(parse_value("{ \t\r\n}"), Ok(("", Value::Object(vec![]))));
}

#[test]
fn empty_array_with_and_without_space() {
    assert_eq!(parse_value("[]"), Ok(("", Value::Array(vec![]))));
    assert_eq!(parse_value("[  ]"), Ok(("", Value::Array(vec![]))));
}

#[test]
fn arrays_keep_the_order_of_the_text() {
    assert_eq!(
        parse_value("[3,1 , 2]"),
        Ok(("", Value::Array(vec![number(3.0), number(1.0), number(2.0)])))
    );
}

#[test]
fn collections_nest() {
    assert_eq!(
        parse_value("{list: [1, {deep: [nil]}], :sym => {}}"),
        Ok((
            "",
            Value::Object(vec![
                entry(":sym", Value::Object(vec![])),
                entry(
                    "list",
                    Value::Array(vec![
                        number(1.0),
                        Value::Object(vec![entry("deep", Value::Array(vec![Value::Null]))]),
                    ])
                ),
            ])
        ))
    );
}

#[test]
fn pair_leaves_what_follows_the_value() {
    assert_eq!(
        parse_key_value("  key :  [1]  , more"),
        Ok(("  , more", ("key".to_string(), Value::Array(vec![number(1.0)]))))
    );
}

#[test]
fn upsert_inserts_in_order_and_replaces() {
    let mut entries: Vec<(String, Value)> = Vec::new();
    upsert(&mut entries, "m".to_string(), number(1.0));
    upsert(&mut entries, "a".to_string(), number(2.0));
    upsert(&mut entries, "z".to_string(), number(3.0));
    upsert(&mut entries, "m".to_string(), Value::Null);
    assert_eq!(
        entries,
        vec![entry("a", number(2.0)), entry("m", Value::Null), entry("z", number(3.0))]
    );
}

#[test]
fn a_copy_equals_what_it_was_made_from() {
    let (_, tree) = parse_value("{a: [1, \"two\", {b: nil}], c: false}").unwrap();
    assert_eq!(tree.clone(), tree);
    assert_eq!(tree.duplicate(), tree);
}

#[test]
fn the_integer_variant_is_never_produced() {
    assert_eq!(parse_value("42"), Ok(("", number(42.0))));
    assert_ne!(parse_value("42"), Ok(("", Value::Integer(42))));
}

#[test]
fn a_long_array_and_a_deep_one() {
    let mut long = String::from("[");
    for i in 0..2000 {
        if i > 0 {
            long.push_str(", ");
        }
        long.push_str(&i.to_string());
    }
    long.push(']');
    match parse_value(&long) {
        Ok(("", Value::Array(items))) => {
            assert_eq!(items.len(), 2000);
            assert_eq!(items[1999], number(1999.0));
        }
        other => panic!("unexpected: {:?}", other),
    }
    let deep = format!("{}nil{}", "[".repeat(200), "]".repeat(200));
    let mut value = parse_value(&deep).unwrap().1;
    for _ in 0..200 {
        value = match value {
            Value::Array(mut items) => {
                assert_eq!(items.len(), 1);
                items.pop().unwrap()
            }
            other => panic!("unexpected: {:?}", other),
        };
    }
    assert_eq!(value, Value::Null);
}
