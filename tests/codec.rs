use dry::codec::{decode, encode, DecodeError};
use dry::value::{copy_value, Key, Value};

fn sample() -> Value {
    Value::Mapping(vec![
        (Key::Text("a".to_string()), Value::List(vec![
            Value::Int(1),
            Value::Float(15, -1),
            Value::Bool(true),
            Value::Text("x\"y\\z\n\t\r".to_string()),
        ])),
        (Key::Int(-7), Value::Mapping(vec![])),
        (Key::Bool(false), Value::List(vec![])),
        (Key::Text("".to_string()), Value::Text("héllo ✓".to_string())),
    ])
}

#[test]
fn encodes_exact_text() {
    assert_eq!(
        encode(&sample()),
        "{\"a\":[1,15e-1,true,\"x\\\"y\\\\z\\n\\t\\r\"],-7:{},false:[],\"\":\"héllo ✓\"}"
    );
    assert_eq!(encode(&Value::Int(i64::MIN)), "-9223372036854775808");
    assert_eq!(encode(&Value::Text(String::new())), "\"\"");
}

#[test]
fn round_trip_nested() {
    let v = sample();
    assert_eq!(decode(&encode(&v)), Ok(v));
}

#[test]
fn round_trip_scalars() {
    for v in [
        Value::Bool(true),
        Value::Bool(false),
        Value::Int(0),
        Value::Int(i64::MAX),
        Value::Int(i64::MIN),
        Value::Float(-5, i32::MIN),
        Value::Float(0, i32::MAX),
        Value::Text("1".to_string()),
        Value::List(vec![Value::List(vec![Value::List(vec![])])]),
    ] {
        let text = encode(&v);
        assert_eq!(decode(&text), Ok(v), "{text}");
    }
}

#[test]
fn text_that_looks_numeric_stays_text() {
    assert_eq!(decode("\"12\""), Ok(Value::Text("12".to_string())));
    assert_eq!(decode("12"), Ok(Value::Int(12)));
}

#[test]
fn decodes_view_payload() {
    assert_eq!(
        decode(r#"{"k":[1,-2,3e4,"s\/\b\f"],"t":true}"#),
        Ok(Value::Mapping(vec![
            (Key::Text("k".to_string()), Value::List(vec![
                Value::Int(1),
                Value::Int(-2),
                Value::Float(3, 4),
                Value::Text("s/\u{8}\u{c}".to_string()),
            ])),
            (Key::Text("t".to_string()), Value::Bool(true)),
        ]))
    );
}

#[test]
fn decode_rejects_malformed() {
    for t in [
        "", " 1", "1 ", "[1,]", "[,1]", "{\"a\"}", "{\"a\":}", "{\"a\":1,}", "nul", "truex",
        "\"\\q\"", "\"abc", "9223372036854775808", "-9223372036854775809", "1e", "1e2147483648",
        "--1", "[1 ,2]", "{[1]:2}", ".5", "1.", "1.e3", "1.5.2", "+1", "-.5", "1e+-2",
        "1.5e2147483649", "99999999999999999999.5",
    ] {
        assert_eq!(decode(t), Err(DecodeError::Malformed), "{t}");
    }
}

#[test]
fn decodes_fractions_and_exponents() {
    assert_eq!(decode("1.5"), Ok(Value::Float(15, -1)));
    assert_eq!(decode("-0.25"), Ok(Value::Float(-25, -2)));
    assert_eq!(decode("1e+21"), Ok(Value::Float(1, 21)));
    assert_eq!(decode("2.5e-3"), Ok(Value::Float(25, -4)));
    assert_eq!(decode("3.0"), Ok(Value::Float(30, -1)));
    assert_eq!(decode("1.5e2147483648"), Ok(Value::Float(15, i32::MAX)));
    assert_eq!(decode("[0.5,1]"), Ok(Value::List(vec![Value::Float(5, -1), Value::Int(1)])));
}

#[test]
fn decode_integer_limits() {
    assert_eq!(decode("-9223372036854775808"), Ok(Value::Int(i64::MIN)));
    assert_eq!(decode("9223372036854775807"), Ok(Value::Int(i64::MAX)));
    assert_eq!(decode("007"), Ok(Value::Int(7)));
}

#[test]
fn copy_is_equal() {
    let v = sample();
    assert_eq!(copy_value(&v), v);
}
