use touch_n_drink::reader::{BufferedReader, Error, LineReader, SliceReader, StreamingJsonObjectReader};

#[test]
fn buffered_reader() {
    let mut input = SliceReader::new(b"0123456789abcdef".to_vec());
    let mut reader = BufferedReader::new(10);
    reader.read(&mut input);
    assert_eq!(reader.buffer(), b"0123456789");
    reader.read(&mut input);
    assert_eq!(reader.buffer(), b"0123456789");
    reader.consume(8);
    assert_eq!(reader.buffer(), b"89");
    reader.read(&mut input);
    assert_eq!(reader.buffer(), b"89abcdef");
    reader.read(&mut input);
    assert_eq!(reader.buffer(), b"89abcdef");
    reader.consume(8);
    assert_eq!(reader.buffer(), b"");
    reader.read(&mut input);
    assert_eq!(reader.buffer(), b"");
}

#[test]
fn fill_and_consume() {
    let mut input = SliceReader::new(b"0123456789abcdef".to_vec());
    let mut reader = BufferedReader::new(10);
    reader.read(&mut input);
    assert_eq!(reader.buffer(), b"0123456789");
    reader.read(&mut input);
    assert_eq!(reader.buffer(), b"0123456789");
    reader.consume(8);
    assert_eq!(reader.buffer(), b"89");
    reader.read(&mut input);
    assert_eq!(reader.buffer(), b"89abcdef");
    reader.read(&mut input);
    assert_eq!(reader.buffer(), b"89abcdef");
    reader.consume(8);
    assert_eq!(reader.buffer(), b"");
    reader.read(&mut input);
    assert_eq!(reader.buffer(), b"");
}

fn person(bytes: &[u8]) -> (String, u64) {
    let value: serde_json::Value = serde_json::from_slice(bytes).unwrap();
    (
        value["name"].as_str().unwrap().to_string(),
        value["age"].as_u64().unwrap(),
    )
}

#[test]
fn streaming_json_object_reader() {
    let mut input = SliceReader::new(
        br#"{"foo": {"name": "Alice", "age": 42}, "bar": {"name": "Bob", "age": 23}}"#.to_vec(),
    );
    let mut reader = StreamingJsonObjectReader::new(2048);
    let (key, value) = reader.next(&mut input).unwrap().unwrap();
    assert_eq!(key, "foo");
    let (name, age) = person(&value);
    assert_eq!(name, "Alice");
    assert_eq!(age, 42);
    let (key, value) = reader.next(&mut input).unwrap().unwrap();
    assert_eq!(key, "bar");
    let (name, age) = person(&value);
    assert_eq!(name, "Bob");
    assert_eq!(age, 23);
    assert_eq!(reader.next(&mut input).unwrap(), None);
}

#[test]
fn json_smoke() {
    let mut input = SliceReader::new(
        br#"{"foo": {"name": "Alice", "age": 42}, "bar": {"name": "Bob", "age": 23}}"#.to_vec(),
    );
    let mut reader = StreamingJsonObjectReader::new(2048);
    let (key, value) = reader.next(&mut input).unwrap().unwrap();
    assert_eq!(key, "foo");
    assert_eq!(person(&value), ("Alice".to_string(), 42));
    let (key, value) = reader.next(&mut input).unwrap().unwrap();
    assert_eq!(key, "bar");
    assert_eq!(person(&value), ("Bob".to_string(), 23));
    assert_eq!(reader.next(&mut input).unwrap(), None);
}

#[test]
fn streaming_json_object_reader_small_buffer_and_errors() {
    // A buffer too small for an element: the element cannot be parsed
    let mut input = SliceReader::new(br#"{"foo": {"name": "Alice", "age": 42}}"#.to_vec());
    let mut reader = StreamingJsonObjectReader::new(16);
    assert_eq!(reader.next(&mut input), Err(Error::Json));

    // Not an object
    let mut input = SliceReader::new(b"[1, 2]".to_vec());
    let mut reader = StreamingJsonObjectReader::new(64);
    assert_eq!(reader.next(&mut input), Err(Error::ExpectedObjectBegin));

    // Missing colon
    let mut input = SliceReader::new(br#"{"foo" 1}"#.to_vec());
    let mut reader = StreamingJsonObjectReader::new(64);
    assert_eq!(reader.next(&mut input), Err(Error::ExpectedColon));

    // An empty object has no key to read
    let mut input = SliceReader::new(b" { } ".to_vec());
    let mut reader = StreamingJsonObjectReader::new(64);
    assert_eq!(reader.next(&mut input), Err(Error::Json));

    // Trailing characters after the object
    let mut input = SliceReader::new(br#"{"a": 1} x"#.to_vec());
    let mut reader = StreamingJsonObjectReader::new(64);
    assert_eq!(reader.next(&mut input), Ok(Some(("a".to_string(), b" 1".to_vec()))));
    assert_eq!(reader.next(&mut input), Err(Error::TrailingCharacters));
}

fn lines_of(text: &[u8]) -> Vec<Vec<u8>> {
    let mut input = SliceReader::new(text.to_vec());
    let mut reader = LineReader::new(256);
    let mut lines = Vec::new();
    while let Some(line) = reader.next(&mut input).unwrap() {
        lines.push(line);
    }
    lines
}

#[test]
fn line_reader() {
    let mut input = SliceReader::new(b"one\ntwo\nthree\n".to_vec());
    let mut reader = LineReader::new(256);
    let line = reader.next(&mut input).unwrap().unwrap();
    assert_eq!(line, b"one");
    let line = reader.next(&mut input).unwrap().unwrap();
    assert_eq!(line, b"two");
    let line = reader.next(&mut input).unwrap().unwrap();
    assert_eq!(line, b"three");
    assert_eq!(reader.next(&mut input).unwrap(), None);
}

#[test]
fn line_reader_multi_newlines() {
    let mut input = SliceReader::new(b"one\n\ntwo\nthree".to_vec());
    let mut reader = LineReader::new(256);
    let line = reader.next(&mut input).unwrap().unwrap();
    assert_eq!(line, b"one");
    let line = reader.next(&mut input).unwrap().unwrap();
    assert_eq!(line, b"");
    let line = reader.next(&mut input).unwrap().unwrap();
    assert_eq!(line, b"two");
    let line = reader.next(&mut input).unwrap().unwrap();
    assert_eq!(line, b"three");
    assert_eq!(reader.next(&mut input).unwrap(), None);
}

#[test]
fn line_reader_no_trailing_newline() {
    let mut input = SliceReader::new(b"one\ntwo\nthree".to_vec());
    let mut reader = LineReader::new(256);
    let line = reader.next(&mut input).unwrap().unwrap();
    assert_eq!(line, b"one");
    let line = reader.next(&mut input).unwrap().unwrap();
    assert_eq!(line, b"two");
    let line = reader.next(&mut input).unwrap().unwrap();
    assert_eq!(line, b"three");
    assert_eq!(reader.next(&mut input).unwrap(), None);
}

#[test]
fn line_reader_crlf_and_long_lines() {
    // A line ends at CR or LF, so CR LF gives an empty line in between
    assert_eq!(
        lines_of(b"a\r\nb\r\n"),
        vec![b"a".to_vec(), b"".to_vec(), b"b".to_vec(), b"".to_vec()]
    );
    assert_eq!(lines_of(b""), Vec::<Vec<u8>>::new());
    // A line longer than the buffer
    let mut input = SliceReader::new(b"0123456789abcdef\n".to_vec());
    let mut reader = LineReader::new(8);
    assert_eq!(reader.next(&mut input), Err(Error::BufferTooSmall));
}

#[test]
fn streaming_json_object_reader_more_errors() {
    // Missing comma between fields
    let mut input = SliceReader::new(br#"{"a": 1 "b": 2}"#.to_vec());
    let mut reader = StreamingJsonObjectReader::new(64);
    assert_eq!(reader.next(&mut input), Err(Error::ExpectedObjectCommaOrEnd));

    // Input ends within the object
    let mut input = SliceReader::new(br#"{"a": 1,"#.to_vec());
    let mut reader = StreamingJsonObjectReader::new(64);
    assert_eq!(reader.next(&mut input), Ok(Some(("a".to_string(), b" 1".to_vec()))));
    assert_eq!(reader.next(&mut input), Err(Error::EofWhileParsing));
}

#[test]
fn streaming_steps_after_parser_results() {
    let mut reader = StreamingJsonObjectReader::new(64);
    reader.fill(br#""a": 1} "#);
    assert_eq!(reader.after_key(Some(Ok(("a".to_string(), 3)))), Ok("a".to_string()));
    assert_eq!(reader.after_value(Some(Ok(2))), Ok(b" 1".to_vec()));
    // The closing brace was read: the object has ended
    assert_eq!(reader.next_buffered(), Ok(None));

    let mut reader = StreamingJsonObjectReader::new(64);
    reader.fill(br#""a" 1"#);
    assert_eq!(reader.after_key(None), Err(Error::EofWhileParsing));
    assert_eq!(reader.after_key(Some(Err(()))), Err(Error::Json));
    assert_eq!(reader.after_key(Some(Ok(("a".to_string(), 3)))), Err(Error::ExpectedColon));

    let mut reader = StreamingJsonObjectReader::new(64);
    reader.fill(b"1 x");
    assert_eq!(reader.after_value(Some(Ok(1))), Err(Error::ExpectedObjectCommaOrEnd));
    let mut reader = StreamingJsonObjectReader::new(64);
    reader.fill(b"12, ");
    assert_eq!(reader.after_value(Some(Ok(2))), Ok(b"12".to_vec()));
}
