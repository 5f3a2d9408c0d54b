use touch_n_drink::json::reader::Reader;
use touch_n_drink::json::value::Value;
use touch_n_drink::json::writer::{ObjectWriter, Writer};

fn written(f: impl FnOnce(&mut Writer) -> Result<(), touch_n_drink::json::error::Error>) -> Result<String, touch_n_drink::json::error::Error> {
    let mut writer = Writer::new(Vec::new());
    let res = f(&mut writer);
    let json = String::from_utf8(writer.into_inner()).unwrap();
    res.map(|()| json)
}

fn ok(s: &str) -> Result<String, touch_n_drink::json::error::Error> {
    Ok(s.to_string())
}

#[test]
fn write() {
    struct Test {
        foo: String,
        bar: f64,
        baz: bool,
    }
    let test = Test { foo: "hi".into(), bar: 42.0, baz: true };
    let res = written(|json| {
        let mut obj = ObjectWriter::new(json);
        obj.field(json, "foo", &Value::String(test.foo.clone()))?;
        obj.field(json, "bar", &Value::Decimal(format!("{}", test.bar)))?;
        obj.field(json, "baz", &Value::Boolean(test.baz))?;
        obj.finish(json)
    });
    assert_eq!(res, ok(r#"{"foo": "hi", "bar": 42, "baz": true}"#));
}

#[test]
fn write_any() {
    assert_eq!(written(|w| w.write_any(&Value::Null)), ok("null"));
    assert_eq!(written(|w| w.write_any(&Value::Boolean(false))), ok("false"));
    assert_eq!(written(|w| w.write_any(&Value::Integer(123))), ok("123"));
    assert_eq!(
        written(|w| w.write_any(&Value::Decimal(format!("{}", 123.456f64)))),
        ok("123.456")
    );
    assert_eq!(
        written(|w| w.write_any(&Value::String("hello".into()))),
        ok("\"hello\"")
    );
    assert_eq!(
        written(|w| w.write_any(&Value::Array(vec![
            Value::Integer(1),
            Value::Integer(2),
            Value::Integer(3),
            Value::Integer(4)
        ]))),
        ok("[1, 2, 3, 4]")
    );
    // An object value keeps its fields ordered by key
    let object = Reader::new(br#"{"foo": "hi", "bar": 42, "baz": true}"#.to_vec())
        .read_any()
        .unwrap();
    assert_eq!(
        written(|w| w.write_any(&object)),
        ok(r#"{"bar": 42, "baz": true, "foo": "hi"}"#)
    );
}

#[test]
fn write_object() {
    let res = written(|json| {
        let mut obj = ObjectWriter::new(json);
        obj.field(json, "foo", &Value::String("hi".into()))?;
        obj.field(json, "bar", &Value::Integer(42))?;
        obj.field(json, "baz", &Value::Boolean(true))?;
        obj.finish(json)
    });
    assert_eq!(res, ok(r#"{"foo": "hi", "bar": 42, "baz": true}"#));
    let fields = vec![
        ("foo".to_string(), Value::String("hi".into())),
        ("bar".to_string(), Value::Integer(42)),
    ];
    assert_eq!(written(|w| w.write_fields(&fields)), ok(r#"{"foo": "hi", "bar": 42}"#));
    assert_eq!(written(|w| w.write_fields(&[])), ok("{}"));
}

#[test]
fn write_array() {
    assert_eq!(written(|w| w.write_array(&[])), ok("[]"));
    let numbers: Vec<Value> = [1u32, 2, 3, 4].iter().map(|n| Value::Integer(i64::from(*n))).collect();
    assert_eq!(written(|w| w.write_array(&numbers)), ok("[1, 2, 3, 4]"));
}

#[test]
fn write_string() {
    assert_eq!(written(|w| w.write_string("")), ok("\"\""));
    assert_eq!(written(|w| w.write_string("hello")), ok("\"hello\""));
    assert_eq!(
        written(|w| w.write_string("hello \"world\"")),
        ok(r#""hello \"world\"""#)
    );
}

#[test]
fn write_decimal() {
    let text = |f: f64| format!("{}", f);
    assert_eq!(written(|w| w.write_decimal(&text(0.0))), ok("0"));
    assert_eq!(written(|w| w.write_decimal(&text(123.0))), ok("123"));
    assert_eq!(written(|w| w.write_decimal(&text(-234.0))), ok("-234"));
    assert_eq!(written(|w| w.write_decimal(&text(123.456))), ok("123.456"));
    assert_eq!(written(|w| w.write_decimal(&text(-234.567))), ok("-234.567"));
}

#[test]
fn write_integer() {
    assert_eq!(written(|w| w.write_integer(0)), ok("0"));
    assert_eq!(written(|w| w.write_integer(123)), ok("123"));
    assert_eq!(written(|w| w.write_integer(-234)), ok("-234"));
    assert_eq!(written(|w| w.write_integer(i64::MIN)), ok("-9223372036854775808"));
}

#[test]
fn write_boolean() {
    assert_eq!(written(|w| w.write_boolean(false)), ok("false"));
    assert_eq!(written(|w| w.write_boolean(true)), ok("true"));
}

#[test]
fn write_null() {
    assert_eq!(written(|w| w.write_null()), ok("null"));
}

#[test]
fn written_value_reads_back() {
    let value = Value::Object(vec![
        ("a".into(), Value::Array(vec![Value::Integer(-7), Value::Decimal("1.5".into())])),
        ("b".into(), Value::String("say \"hi\"".into())),
        ("c".into(), Value::Null),
    ]);
    let json = written(|w| w.write_any(&value)).unwrap();
    assert_eq!(json, r#"{"a": [-7, 1.5], "b": "say \"hi\"", "c": null}"#);
    assert_eq!(Reader::new(json.into_bytes()).read_any(), Ok(value));
}

#[test]
fn write_string_escapes_only_quotes_backslashes_and_controls() {
    assert_eq!(written(|w| w.write_string("it's")), ok(r#""it's""#));
    assert_eq!(
        written(|w| w.write_string("a\tb\\c\nd\u{e4}/")),
        ok("\"a\\tb\\\\c\\nd\u{e4}/\"")
    );
    assert_eq!(
        written(|w| w.write_string("\u{8}\u{c}\r\u{1}\u{1f}")),
        ok(r#""\b\f\r\u0001\u001f""#)
    );
    assert_eq!(
        written(|w| w.write_string("Getr\u{e4}nke \u{1f37a}")),
        ok("\"Getr\u{e4}nke \u{1f37a}\"")
    );
}

#[test]
fn written_string_reads_back() {
    let text = "caf\u{e9} \"\u{1f37a}\"\t\u{1}\\";
    let json = written(|w| w.write_string(text)).unwrap();
    assert_eq!(Reader::new(json.into_bytes()).read_string(), Ok(text.to_string()));
}

#[test]
fn typed_writes() {
    assert_eq!(written(|w| w.write(&42u8)), ok("42"));
    assert_eq!(written(|w| w.write(&-7i32)), ok("-7"));
    assert_eq!(written(|w| w.write(&(i64::MAX as u64))), ok("9223372036854775807"));
    assert_eq!(written(|w| w.write(&u64::MAX)), Err(touch_n_drink::json::error::Error::NumberTooLarge));
    assert_eq!(written(|w| w.write(&false)), ok("false"));
    assert_eq!(written(|w| w.write(&())), ok("null"));
    assert_eq!(written(|w| w.write(&"a\"b".to_string())), ok(r#""a\"b""#));
    assert_eq!(written(|w| w.write(&Value::Array(vec![Value::Integer(1)]))), ok("[1]"));
}
