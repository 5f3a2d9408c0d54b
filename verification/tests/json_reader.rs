use touch_n_drink::json::error::Error;
use touch_n_drink::json::reader::Reader;
use touch_n_drink::json::value::Value;

fn reader(s: &str) -> Reader {
    Reader::new(s.as_bytes().to_vec())
}

#[test]
fn read() {
    #[derive(Debug, Default, PartialEq)]
    struct Test {
        foo: String,
        bar: f64,
        baz: bool,
    }

    let json = r#"{"foo": "hi", "bar": 42, "baz": true}"#;
    let mut test = Test::default();
    for (key, value) in reader(json).read_object().unwrap() {
        match &*key {
            "foo" => test.foo = value.into_string().unwrap(),
            "bar" => test.bar = value.to_i64().unwrap() as f64,
            "baz" => test.baz = value.to_bool().unwrap(),
            _ => (),
        }
    }
    assert_eq!(
        test,
        Test {
            foo: "hi".into(),
            bar: 42.0,
            baz: true,
        }
    );
}

#[test]
fn read_any() {
    assert_eq!(reader("null").read_any(), Ok(Value::Null));
    assert_eq!(reader("false").read_any(), Ok(Value::Boolean(false)));
    assert_eq!(reader("123").read_any(), Ok(Value::Integer(123)));
    assert_eq!(reader("123.456").read_any(), Ok(Value::Decimal("123.456".into())));
    assert_eq!(reader("\"hello\"").read_any(), Ok(Value::String("hello".into())));
    assert_eq!(
        reader("[1, 2, 3, 4]").read_any(),
        Ok(Value::Array(vec![
            Value::Integer(1),
            Value::Integer(2),
            Value::Integer(3),
            Value::Integer(4),
        ]))
    );
    // Object fields come ordered by key
    assert_eq!(
        reader(r#"{"foo": "hi", "bar": 42, "baz": true}"#).read_any(),
        Ok(Value::Object(vec![
            ("bar".into(), Value::Integer(42)),
            ("baz".into(), Value::Boolean(true)),
            ("foo".into(), Value::String("hi".into())),
        ]))
    );
    assert_eq!(reader("buzz").read_any(), Err(Error::Unexpected('b')));
}

#[test]
fn read_object() {
    assert_eq!(reader("{}").read_object(), Ok(vec![]));
    assert_eq!(
        reader(r#"{"foo": "hi", "bar": 42, "baz": true}"#).read_object(),
        Ok(vec![
            ("bar".to_string(), Value::Integer(42)),
            ("baz".to_string(), Value::Boolean(true)),
            ("foo".to_string(), Value::String("hi".into())),
        ])
    );
}

#[test]
fn read_array() {
    assert_eq!(reader("[]").read_array(), Ok(vec![]));
    let values = reader("[1, 2, 3, 4]").read_array().unwrap();
    let numbers: Vec<u32> = values.iter().map(|v| v.to_u32().unwrap()).collect();
    assert_eq!(numbers, vec![1, 2, 3, 4]);
}

#[test]
fn read_string() {
    assert_eq!(reader("\"\"").read_string(), Ok("".into()));
    assert_eq!(reader("\"hello\"").read_string(), Ok("hello".into()));
    assert_eq!(
        reader(r#""hello \"world\"""#).read_string(),
        Ok("hello \"world\"".into())
    );
    assert_eq!(reader("\"hello").read_string(), Err(Error::Eof));
}

fn decimal(s: &str) -> Result<f64, Error> {
    reader(s).read_decimal().map(|t| t.parse::<f64>().unwrap())
}

#[test]
fn read_decimal() {
    assert_eq!(decimal("0"), Ok(0.0));
    assert_eq!(decimal("123"), Ok(123.0));
    assert_eq!(decimal("-234"), Ok(-234.0));
    assert_eq!(decimal("0.0"), Ok(0.0));
    assert_eq!(decimal("123.456"), Ok(123.456));
    assert_eq!(decimal("-234.567"), Ok(-234.567));
    assert_eq!(decimal("null"), Err(Error::Unexpected('n')));
    assert_eq!(decimal("\"0\""), Err(Error::Unexpected('"')));
}

#[test]
fn read_integer() {
    assert_eq!(reader("0").read_integer(), Ok(0));
    assert_eq!(reader("123").read_integer(), Ok(123));
    assert_eq!(reader("-234").read_integer(), Ok(-234));
    assert_eq!(reader("0.0").read_integer(), Err(Error::InvalidType));
    assert_eq!(reader("123.456").read_integer(), Err(Error::InvalidType));
    assert_eq!(reader("-234.567").read_integer(), Err(Error::InvalidType));
    assert_eq!(reader("null").read_integer(), Err(Error::Unexpected('n')));
    assert_eq!(reader("\"0\"").read_integer(), Err(Error::Unexpected('"')));
}

#[test]
fn read_boolean() {
    assert_eq!(reader("false").read_boolean(), Ok(false));
    assert_eq!(reader("true").read_boolean(), Ok(true));
    assert_eq!(reader("t").read_boolean(), Err(Error::Eof));
    assert_eq!(reader("0").read_boolean(), Err(Error::Unexpected('0')));
    assert_eq!(reader("True").read_boolean(), Err(Error::Unexpected('T')));
    assert_eq!(reader("1234").read_boolean(), Err(Error::Unexpected('1')));
    assert_eq!(reader("\"true\"").read_boolean(), Err(Error::Unexpected('"')));
}

#[test]
fn read_null() {
    assert_eq!(reader("null").read_null(), Ok(()));
    assert_eq!(reader("n").read_null(), Err(Error::Eof));
    assert_eq!(reader("0").read_null(), Err(Error::Unexpected('0')));
    assert_eq!(reader("1234").read_null(), Err(Error::Unexpected('1')));
    assert_eq!(reader("\"null\"").read_null(), Err(Error::Unexpected('"')));
}

#[test]
fn read_sequence_advances_position() {
    let mut json = reader("true, 42");
    assert_eq!(json.read_boolean(), Ok(true));
    assert_eq!(json.read_any(), Err(Error::Unexpected(',')));
    json.discard_to_end().unwrap();
    assert_eq!(json.read_any(), Err(Error::Eof));
    assert_eq!(json.into_inner(), b"true, 42".to_vec());
    // No white space is skipped before a value
    assert_eq!(reader(" true").read_boolean(), Err(Error::Unexpected(' ')));
}

#[test]
fn read_nested_and_escaped() {
    let value = reader(r#"{"a": [1, {"b": null}], "c": "\u0041\n"}"#).read_any().unwrap();
    assert_eq!(
        value,
        Value::Object(vec![
            (
                "a".into(),
                Value::Array(vec![
                    Value::Integer(1),
                    Value::Object(vec![("b".into(), Value::Null)]),
                ])
            ),
            ("c".into(), Value::String("A\n".into())),
        ])
    );
}

#[test]
fn value_conversions() {
    assert_eq!(Value::Integer(255).to_u8(), Ok(255));
    assert!(Value::Integer(256).to_u8().is_err());
    assert!(Value::Integer(-1).to_u32().is_err());
    assert_eq!(Value::Integer(-128).to_i8(), Ok(-128));
    assert!(Value::Integer(-129).to_i8().is_err());
    assert_eq!(Value::Null.to_unit(), Ok(()));
    assert!(Value::Boolean(true).to_unit().is_err());
    // Numeric strings convert too
    assert_eq!(Value::String("1".into()).to_u64(), Ok(1));
    assert_eq!(Value::String("-5".into()).to_i32(), Ok(-5));
    assert!(Value::String("x".into()).to_u64().is_err());
    assert!(Value::Boolean(true).to_u64().is_err());
    assert_eq!(Value::try_from_u64(42), Ok(Value::Integer(42)));
    assert!(Value::try_from_u64(u64::MAX).is_err());
    assert_eq!(
        Value::Array(vec![Value::Null]).into_array(),
        Ok(vec![Value::Null])
    );
    assert!(Value::Null.into_object().is_err());
}

#[test]
fn read_string_decodes_escapes() {
    assert_eq!(reader("\"a\\nb\"").read_string(), Ok("a\nb".to_string()));
    assert_eq!(
        reader(r#""\t\r\b\f\/\\\"""#).read_string(),
        Ok("\t\r\u{8}\u{c}/\\\"".to_string())
    );
    assert_eq!(
        reader(r#""\u0041\u00e4\u20AC""#).read_string(),
        Ok("A\u{e4}\u{20ac}".to_string())
    );
    assert_eq!(reader(r#""\ud83c\udf7a!""#).read_string(), Ok("\u{1f37a}!".to_string()));
    assert_eq!(reader("\"Getr\u{e4}nke\"").read_string(), Ok("Getr\u{e4}nke".to_string()));
}

#[test]
fn read_string_lone_surrogate_is_replaced() {
    assert_eq!(reader(r#""\ud83cx""#).read_string(), Ok("\u{fffd}x".to_string()));
    assert_eq!(reader(r#""\udf7a""#).read_string(), Ok("\u{fffd}".to_string()));
    assert_eq!(reader(r#""\ud83c\u0041""#).read_string(), Ok("\u{fffd}A".to_string()));
}

#[test]
fn read_string_bad_escapes() {
    assert_eq!(reader(r#""\x""#).read_string(), Err(Error::Unexpected('x')));
    assert_eq!(reader(r#""\u00g0""#).read_string(), Err(Error::Unexpected('g')));
    assert_eq!(reader(r#""\u00"#).read_string(), Err(Error::Eof));
    assert_eq!(reader("\"\\").read_string(), Err(Error::Eof));
}

#[test]
fn typed_reads() {
    assert_eq!(reader("255").read::<u8>(), Ok(255));
    assert_eq!(reader("256").read::<u8>(), Err(Error::NumberTooLarge));
    assert_eq!(reader("-1").read::<u32>(), Err(Error::NumberTooLarge));
    assert_eq!(reader("-129").read::<i8>(), Err(Error::NumberTooLarge));
    assert_eq!(reader("-128").read::<i8>(), Ok(-128));
    assert_eq!(reader("-234").read::<i64>(), Ok(-234));
    assert_eq!(reader("true").read::<bool>(), Ok(true));
    assert_eq!(reader("null").read::<()>(), Ok(()));
    assert_eq!(reader("\"h\\u00e9\"").read::<String>(), Ok("h\u{e9}".to_string()));
    assert_eq!(reader("[1, null]").read::<Value>(), Ok(Value::Array(vec![Value::Integer(1), Value::Null])));
    assert_eq!(reader("x").read::<u16>(), Err(Error::Unexpected('x')));
}
