//! JSON writer: writes JSON text into a byte buffer

use crate::json::error::Error;
use crate::json::reader::{word_false, word_null, word_true};
use crate::json::value::{
    field_values_well_formed, fields_view, lemma_fields_view, lemma_well_formed_parts, lemma_values_view, value_view,
    values_view, well_formed, JsonValue, Value,
};
use crate::text::{decimal_text, hex_digit, hex_digit_lower, push_decimal_i64};
use vstd::prelude::*;
use vstd::string::StrSliceExecFns;
use vstd::utf8::encode_utf8;

verus! {

// ---------------------------------------------------------------------------------------------
// The text written for each value
// ---------------------------------------------------------------------------------------------

/// Bytes written for one byte of a string's UTF-8 encoding: `"` and `\` behind a backslash,
/// the control bytes below 0x20 as `\b`, `\t`, `\n`, `\f`, `\r` or `\u00XX` (lower case
/// hex), and any other byte as it is, so that text outside ASCII stays UTF-8
pub open spec fn escape_byte(b: u8) -> Seq<u8> {
    if b == 0x22u8 || b == 0x5cu8 {
        seq![0x5cu8, b]
    } else if b == 0x08u8 {
        seq![0x5cu8, 0x62u8]
    } else if b == 0x09u8 {
        seq![0x5cu8, 0x74u8]
    } else if b == 0x0au8 {
        seq![0x5cu8, 0x6eu8]
    } else if b == 0x0cu8 {
        seq![0x5cu8, 0x66u8]
    } else if b == 0x0du8 {
        seq![0x5cu8, 0x72u8]
    } else if b < 0x20u8 {
        seq![0x5cu8, 0x75u8, 0x30u8, 0x30u8, hex_digit_lower(b / 16), hex_digit_lower(b % 16)]
    } else {
        seq![b]
    }
}

/// Escaped bytes of a byte sequence
pub open spec fn escaped_bytes(bs: Seq<u8>) -> Seq<u8>
    decreases bs.len(),
{
    if bs.len() == 0 {
        seq![]
    } else {
        escape_byte(bs[0]) + escaped_bytes(bs.drop_first())
    }
}

/// Escaped bytes of a string: its UTF-8 encoding, escaped byte by byte
pub open spec fn escaped(s: Seq<char>) -> Seq<u8> {
    escaped_bytes(encode_utf8(s))
}

/// A JSON string: its escaped characters in double quotes
pub open spec fn string_text(s: Seq<char>) -> Seq<u8> {
    seq![0x22u8] + escaped(s) + seq![0x22u8]
}

/// Separator written between array elements and between object fields
pub open spec fn comma_text() -> Seq<u8> {
    seq![0x2cu8, 0x20u8]
}

/// Separator written between an object key and its value
pub open spec fn colon_text() -> Seq<u8> {
    seq![0x3au8, 0x20u8]
}

/// The JSON text written for a value
pub open spec fn value_text(v: JsonValue) -> Seq<u8>
    decreases v,
{
    match v {
        JsonValue::Null => word_null(),
        JsonValue::Boolean(b) => if b {
            word_true()
        } else {
            word_false()
        },
        JsonValue::Integer(n) => decimal_text(n as int),
        JsonValue::Decimal(t) => encode_utf8(t),
        JsonValue::String(s) => string_text(s),
        JsonValue::Array(vs) => seq![0x5bu8] + elems_text(vs) + seq![0x5du8],
        JsonValue::Object(fs) => seq![0x7bu8] + fields_text(fs) + seq![0x7du8],
    }
}

/// Array elements, separated by `, `
pub open spec fn elems_text(vs: Seq<JsonValue>) -> Seq<u8>
    decreases vs,
{
    if vs.len() == 0 {
        seq![]
    } else if vs.len() == 1 {
        value_text(vs[0])
    } else {
        value_text(vs[0]) + comma_text() + elems_text(vs.drop_first())
    }
}

/// Object fields, separated by `, `
pub open spec fn fields_text(fs: Seq<(Seq<char>, JsonValue)>) -> Seq<u8>
    decreases fs,
{
    if fs.len() == 0 {
        seq![]
    } else if fs.len() == 1 {
        string_text(fs[0].0) + colon_text() + value_text(fs[0].1)
    } else {
        string_text(fs[0].0) + colon_text() + value_text(fs[0].1) + comma_text() + fields_text(
            fs.drop_first(),
        )
    }
}

/// Text of one object field
pub open spec fn field_text(k: Seq<char>, v: JsonValue) -> Seq<u8> {
    string_text(k) + colon_text() + value_text(v)
}

pub proof fn lemma_elems_text_push(vs: Seq<JsonValue>, v: JsonValue)
    ensures
        elems_text(vs.push(v)) == if vs.len() == 0 {
            value_text(v)
        } else {
            elems_text(vs) + comma_text() + value_text(v)
        },
    decreases vs.len(),
{
    let w = vs.push(v);
    if vs.len() == 0 {
    } else if vs.len() == 1 {
        assert(w.drop_first() =~= seq![v]);
        assert(elems_text(seq![v]) == value_text(seq![v][0]));
    } else {
        assert(w.drop_first() =~= vs.drop_first().push(v));
        lemma_elems_text_push(vs.drop_first(), v);
        assert(elems_text(w) =~= elems_text(vs) + comma_text() + value_text(v));
    }
}

pub proof fn lemma_fields_text_push(fs: Seq<(Seq<char>, JsonValue)>, k: Seq<char>, v: JsonValue)
    ensures
        fields_text(fs.push((k, v))) == if fs.len() == 0 {
            field_text(k, v)
        } else {
            fields_text(fs) + comma_text() + field_text(k, v)
        },
    decreases fs.len(),
{
    let w = fs.push((k, v));
    if fs.len() == 0 {
    } else if fs.len() == 1 {
        assert(w.drop_first() =~= seq![(k, v)]);
        assert(fields_text(seq![(k, v)]) == field_text(k, v));
        assert(fields_text(w) =~= fields_text(fs) + comma_text() + field_text(k, v));
    } else {
        assert(w.drop_first() =~= fs.drop_first().push((k, v)));
        lemma_fields_text_push(fs.drop_first(), k, v);
        assert(fields_text(w) =~= fields_text(fs) + comma_text() + field_text(k, v));
    }
}

// ---------------------------------------------------------------------------------------------
// Byte level writing
// ---------------------------------------------------------------------------------------------

/// Append the given bytes
fn push_all(out: &mut Vec<u8>, bytes: &[u8])
    ensures
        final(out)@ == old(out)@ + bytes@,
{
    let mut i: usize = 0;
    while i < bytes.len()
        invariant
            i <= bytes@.len(),
            out@ == old(out)@ + bytes@.take(i as int),
        decreases bytes.len() - i,
    {
        out.push(bytes[i]);
        assert(bytes@.take(i + 1) =~= bytes@.take(i as int).push(bytes@[i as int]));
        i = i + 1;
    }
    assert(bytes@.take(i as int) =~= bytes@);
}

/// Append the bytes written for one byte of a string
fn push_escaped_byte(b: u8, out: &mut Vec<u8>)
    ensures
        final(out)@ == old(out)@ + escape_byte(b),
{
    if b == 0x22u8 || b == 0x5cu8 {
        out.push(0x5cu8);
        out.push(b);
    } else if b == 0x08u8 {
        out.push(0x5cu8);
        out.push(0x62u8);
    } else if b == 0x09u8 {
        out.push(0x5cu8);
        out.push(0x74u8);
    } else if b == 0x0au8 {
        out.push(0x5cu8);
        out.push(0x6eu8);
    } else if b == 0x0cu8 {
        out.push(0x5cu8);
        out.push(0x66u8);
    } else if b == 0x0du8 {
        out.push(0x5cu8);
        out.push(0x72u8);
    } else if b < 0x20u8 {
        out.push(0x5cu8);
        out.push(0x75u8);
        out.push(0x30u8);
        out.push(0x30u8);
        out.push(hex_digit(b / 16));
        out.push(hex_digit(b % 16));
    } else {
        out.push(b);
    }
    assert(final(out)@ =~= old(out)@ + escape_byte(b));
}

/// Escaping bytes one after another escapes their concatenation
proof fn lemma_escaped_bytes_push(bs: Seq<u8>, b: u8)
    ensures
        escaped_bytes(bs.push(b)) == escaped_bytes(bs) + escape_byte(b),
    decreases bs.len(),
{
    if bs.len() == 0 {
        assert(bs.push(b).drop_first() =~= Seq::<u8>::empty());
        assert(bs.push(b)[0] == b);
        assert(escaped_bytes(Seq::<u8>::empty()) == Seq::<u8>::empty());
        assert(escaped_bytes(bs.push(b)) =~= escaped_bytes(bs) + escape_byte(b));
    } else {
        lemma_escaped_bytes_push(bs.drop_first(), b);
        assert(bs.push(b).drop_first() =~= bs.drop_first().push(b));
        assert(bs.push(b)[0] == bs[0]);
        assert(escaped_bytes(bs.push(b)) =~= escaped_bytes(bs) + escape_byte(b));
    }
}

// ---------------------------------------------------------------------------------------------
// The writer
// ---------------------------------------------------------------------------------------------

/// JSON writer into a byte buffer
#[derive(Debug)]
pub struct Writer {
    writer: Vec<u8>,
}

impl Writer {
    /// Bytes written so far (including what the buffer held when the writer was created)
    pub closed spec fn written(&self) -> Seq<u8> {
        self.writer@
    }

    /// Create JSON writer that appends to the given buffer
    pub fn new(writer: Vec<u8>) -> (w: Self)
        ensures
            w.written() == writer@,
    {
        Writer { writer }
    }

    /// Returns a reference to the inner buffer wrapped by this writer
    pub fn get_ref(&self) -> (r: &Vec<u8>)
        ensures
            r@ == self.written(),
    {
        &self.writer
    }

    /// Returns a mutable reference to the inner buffer wrapped by this writer
    pub fn get_mut(&mut self) -> (r: &mut Vec<u8>)
        ensures
            r@ == old(self).written(),
            final(self).written() == final(r)@,
    {
        &mut self.writer
    }

    /// Consumes the writer, returning its inner buffer
    pub fn into_inner(self) -> (r: Vec<u8>)
        ensures
            r@ == self.written(),
    {
        self.writer
    }

    /// Write any JSON value
    pub fn write_any(&mut self, value: &Value) -> (r: Result<(), Error>)
        requires
            well_formed(value@),
        ensures
            r is Ok,
            final(self).written() == old(self).written() + value_text(value@),
        decreases value, 1nat,
    {
        match value {
            Value::Object(fs) => self.write_fields(fs.as_slice()),
            Value::Array(vs) => {
                proof {
                    lemma_values_view(vs@);
                    lemma_well_formed_parts(value@);
                    assert forall|j: int| 0 <= j < vs@.len() implies well_formed(
                        #[trigger] vs@[j]@,
                    ) by {
                        assert(values_view(vs@)[j] == value_view(vs@[j]));
                    }
                }
                self.write_array(vs.as_slice())
            },
            Value::String(s) => self.write_string(s.as_str()),
            Value::Decimal(t) => self.write_decimal(t.as_str()),
            Value::Integer(n) => self.write_integer(*n),
            Value::Boolean(b) => self.write_boolean(*b),
            Value::Null => self.write_null(),
        }
    }

    /// Write a JSON object with the given fields, in the order given
    pub fn write_fields(&mut self, fields: &[(String, Value)]) -> (r: Result<(), Error>)
        requires
            field_values_well_formed(fields_view(fields@)),
        ensures
            r is Ok,
            final(self).written() == old(self).written() + seq![0x7bu8] + fields_text(
                fields_view(fields@),
            ) + seq![0x7du8],
        decreases fields@, 0nat,
    {
        let mut obj = ObjectWriter::new(self);
        let mut i: usize = 0;
        proof {
            lemma_fields_view(fields@);
        }
        assert(fields_view(fields@.take(0)) =~= Seq::<(Seq<char>, JsonValue)>::empty());
        assert forall|j: int| 0 <= j < fields@.len() implies well_formed(
            #[trigger] fields@[j].1@,
        ) by {
            assert(fields_view(fields@)[j].1 == fields@[j].1@);
        }
        while i < fields.len()
            invariant
                i <= fields@.len(),
                obj.has_fields == (i > 0),
                forall|j: int| 0 <= j < fields@.len() ==> well_formed(#[trigger] fields@[j].1@),
                self.written() == old(self).written() + seq![0x7bu8] + fields_text(
                    fields_view(fields@.take(i as int)),
                ),
            decreases fields.len() - i,
        {
            let ghost before = self.written();
            assert(decreases_to!(fields@ => fields@[i as int].1));
            let _ = obj.field(self, fields[i].0.as_str(), &fields[i].1);
            proof {
                let t = fields@.take(i as int);
                assert(fields@.take(i + 1) =~= t.push(fields@[i as int]));
                crate::json::reader::lemma_fields_view_push(t, fields@[i as int]);
                lemma_fields_view(t);
                lemma_fields_text_push(
                    fields_view(t),
                    fields@[i as int].0@,
                    value_view(fields@[i as int].1),
                );
                assert(self.written() =~= old(self).written() + seq![0x7bu8] + fields_text(
                    fields_view(fields@.take(i + 1)),
                ));
            }
            i = i + 1;
        }
        let _ = obj.finish(self);
        assert(fields@.take(i as int) =~= fields@);
        Ok(())
    }

    /// Write a JSON array with the given elements
    pub fn write_array(&mut self, values: &[Value]) -> (r: Result<(), Error>)
        requires
            forall|i: int| 0 <= i < values@.len() ==> well_formed(#[trigger] values@[i]@),
        ensures
            r is Ok,
            final(self).written() == old(self).written() + seq![0x5bu8] + elems_text(
                values_view(values@),
            ) + seq![0x5du8],
        decreases values@, 0nat,
    {
        self.writer.push(0x5bu8);
        let mut i: usize = 0;
        assert(values_view(values@.take(0)) =~= Seq::<JsonValue>::empty());
        while i < values.len()
            invariant
                i <= values@.len(),
                forall|j: int| 0 <= j < values@.len() ==> well_formed(#[trigger] values@[j]@),
                self.written() == old(self).written() + seq![0x5bu8] + elems_text(
                    values_view(values@.take(i as int)),
                ),
            decreases values.len() - i,
        {
            if i > 0 {
                self.writer.push(0x2cu8);
                self.writer.push(0x20u8);
            }
            assert(decreases_to!(values@ => values@[i as int]));
            let _ = self.write_any(&values[i]);
            proof {
                let t = values@.take(i as int);
                assert(values@.take(i + 1) =~= t.push(values@[i as int]));
                crate::json::reader::lemma_values_view_push(t, values@[i as int]);
                lemma_values_view(t);
                lemma_elems_text_push(values_view(t), value_view(values@[i as int]));
                assert(self.written() =~= old(self).written() + seq![0x5bu8] + elems_text(
                    values_view(values@.take(i + 1)),
                ));
            }
            i = i + 1;
        }
        self.writer.push(0x5du8);
        assert(values@.take(i as int) =~= values@);
        assert(self.written() =~= old(self).written() + seq![0x5bu8] + elems_text(
            values_view(values@),
        ) + seq![0x5du8]);
        Ok(())
    }

    /// Write a JSON string
    pub fn write_string(&mut self, value: &str) -> (r: Result<(), Error>)
        ensures
            r is Ok,
            final(self).written() == old(self).written() + string_text(value@),
    {
        let bytes = value.as_bytes();
        self.writer.push(0x22u8);
        let mut i: usize = 0;
        assert(bytes@.take(0) =~= Seq::<u8>::empty());
        while i < bytes.len()
            invariant
                i <= bytes@.len(),
                bytes@ == encode_utf8(value@),
                self.written() == old(self).written() + seq![0x22u8] + escaped_bytes(
                    bytes@.take(i as int),
                ),
            decreases bytes.len() - i,
        {
            push_escaped_byte(bytes[i], &mut self.writer);
            proof {
                lemma_escaped_bytes_push(bytes@.take(i as int), bytes@[i as int]);
                assert(bytes@.take(i + 1) =~= bytes@.take(i as int).push(bytes@[i as int]));
            }
            i = i + 1;
        }
        self.writer.push(0x22u8);
        assert(bytes@.take(i as int) =~= bytes@);
        assert(self.written() =~= old(self).written() + string_text(value@));
        Ok(())
    }

    /// Write a JSON number (decimal), given as its text
    pub fn write_decimal(&mut self, value: &str) -> (r: Result<(), Error>)
        ensures
            r is Ok,
            final(self).written() == old(self).written() + encode_utf8(value@),
    {
        let bytes = value.as_bytes_vec();
        push_all(&mut self.writer, bytes.as_slice());
        Ok(())
    }

    /// Write a JSON number (integer)
    pub fn write_integer(&mut self, value: i64) -> (r: Result<(), Error>)
        ensures
            r is Ok,
            final(self).written() == old(self).written() + decimal_text(value as int),
    {
        push_decimal_i64(value, &mut self.writer);
        Ok(())
    }

    /// Write a JSON boolean
    pub fn write_boolean(&mut self, value: bool) -> (r: Result<(), Error>)
        ensures
            r is Ok,
            final(self).written() == old(self).written() + if value {
                word_true()
            } else {
                word_false()
            },
    {
        if value {
            let w: [u8; 4] = [0x74u8, 0x72u8, 0x75u8, 0x65u8];
            assert(w@ =~= word_true());
            push_all(&mut self.writer, &w);
        } else {
            let w: [u8; 5] = [0x66u8, 0x61u8, 0x6cu8, 0x73u8, 0x65u8];
            assert(w@ =~= word_false());
            push_all(&mut self.writer, &w);
        }
        Ok(())
    }

    /// Write a JSON null
    pub fn write_null(&mut self) -> (r: Result<(), Error>)
        ensures
            r is Ok,
            final(self).written() == old(self).written() + word_null(),
    {
        let w: [u8; 4] = [0x6eu8, 0x75u8, 0x6cu8, 0x6cu8];
        assert(w@ =~= word_null());
        push_all(&mut self.writer, &w);
        Ok(())
    }

    /// Write raw bytes
    fn write_raw(&mut self, bytes: &[u8])
        ensures
            final(self).written() == old(self).written() + bytes@,
    {
        push_all(&mut self.writer, bytes);
    }
}

/// JSON object writer: writes an object field by field
pub struct ObjectWriter {
    has_fields: bool,
}

impl ObjectWriter {
    /// Whether a field was written already
    pub closed spec fn started(&self) -> bool {
        self.has_fields
    }

    /// Start object
    pub fn new(json: &mut Writer) -> (o: Self)
        ensures
            !o.started(),
            final(json).written() == old(json).written() + seq![0x7bu8],
    {
        json.write_raw(&[0x7bu8]);
        ObjectWriter { has_fields: false }
    }

    /// Write object field
    pub fn field(&mut self, json: &mut Writer, key: &str, value: &Value) -> (r: Result<(), Error>)
        requires
            well_formed(value@),
        ensures
            r is Ok,
            final(self).started(),
            final(json).written() == old(json).written() + (if old(self).started() {
                comma_text()
            } else {
                Seq::<u8>::empty()
            }) + field_text(key@, value@),
        decreases value, 2nat,
    {
        let ghost before = json.written();
        if self.has_fields {
            json.write_raw(&[0x2cu8, 0x20u8]);
            assert(seq![0x2cu8, 0x20u8] =~= comma_text());
        }
        let ghost mid = json.written();
        let _ = json.write_string(key);
        json.write_raw(&[0x3au8, 0x20u8]);
        assert(seq![0x3au8, 0x20u8] =~= colon_text());
        let _ = json.write_any(value);
        self.has_fields = true;
        assert(json.written() =~= mid + field_text(key@, value@));
        assert(json.written() =~= before + (if old(self).started() {
            comma_text()
        } else {
            Seq::<u8>::empty()
        }) + field_text(key@, value@));
        Ok(())
    }

    /// Write object field whose value is an object with the given fields, in the order given
    pub fn field_object(&mut self, json: &mut Writer, key: &str, fields: &[(String, Value)]) -> (r:
        Result<(), Error>)
        requires
            field_values_well_formed(fields_view(fields@)),
        ensures
            r is Ok,
            final(self).started(),
            final(json).written() == old(json).written() + (if old(self).started() {
                comma_text()
            } else {
                Seq::<u8>::empty()
            }) + field_text(key@, JsonValue::Object(fields_view(fields@))),
    {
        let ghost before = json.written();
        if self.has_fields {
            json.write_raw(&[0x2cu8, 0x20u8]);
            assert(seq![0x2cu8, 0x20u8] =~= comma_text());
        }
        let ghost mid = json.written();
        let _ = json.write_string(key);
        json.write_raw(&[0x3au8, 0x20u8]);
        assert(seq![0x3au8, 0x20u8] =~= colon_text());
        let _ = json.write_fields(fields);
        self.has_fields = true;
        let ghost v = JsonValue::Object(fields_view(fields@));
        assert(json.written() =~= mid + field_text(key@, v));
        assert(json.written() =~= before + (if old(self).started() {
            comma_text()
        } else {
            Seq::<u8>::empty()
        }) + field_text(key@, v));
        Ok(())
    }

    /// Finish object
    pub fn finish(&self, json: &mut Writer) -> (r: Result<(), Error>)
        ensures
            r is Ok,
            final(json).written() == old(json).written() + seq![0x7du8],
    {
        json.write_raw(&[0x7du8]);
        Ok(())
    }
}

/// JSON array writer: writes the elements of an array one after another
pub struct ArrayWriter {
    has_elements: bool,
}

impl ArrayWriter {
    /// Whether an element was started already
    pub closed spec fn started(&self) -> bool {
        self.has_elements
    }

    /// Start array
    pub fn new(json: &mut Writer) -> (a: Self)
        ensures
            !a.started(),
            final(json).written() == old(json).written() + seq![0x5bu8],
    {
        json.write_raw(&[0x5bu8]);
        ArrayWriter { has_elements: false }
    }

    /// Start the next element: after the first one, write the separator
    pub fn element(&mut self, json: &mut Writer)
        ensures
            final(self).started(),
            final(json).written() == old(json).written() + (if old(self).started() {
                comma_text()
            } else {
                Seq::<u8>::empty()
            }),
    {
        if self.has_elements {
            json.write_raw(&[0x2cu8, 0x20u8]);
            assert(seq![0x2cu8, 0x20u8] =~= comma_text());
        } else {
            assert(json.written() =~= old(json).written() + Seq::<u8>::empty());
        }
        self.has_elements = true;
    }

    /// Finish array
    pub fn finish(&self, json: &mut Writer) -> (r: Result<(), Error>)
        ensures
            r is Ok,
            final(json).written() == old(json).written() + seq![0x5du8],
    {
        json.write_raw(&[0x5du8]);
        Ok(())
    }
}

} // verus!
