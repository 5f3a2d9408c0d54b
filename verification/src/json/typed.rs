//! Typed JSON: reading and writing values of Rust types through the reader and the writer

use crate::json::error::Error;
use crate::json::reader::{
    expect_word, is_number_tail, spec_read_any, spec_read_boolean, spec_read_integer, spec_read_string,
    string_of_bytes, word_false, word_null, word_true, Reader,
};
use crate::json::roundtrip::read_of_written_value;
use crate::json::value::{well_formed, JsonValue, Value};
use crate::json::writer::{string_text, value_text, Writer};
use crate::text::{decimal_text, lemma_parse_decimal_text, spec_parse_i64};
use vstd::prelude::*;

verus! {

/// Result of reading an integer at `p` that must lie between `min` and `max`: a number out of
/// that range is too large
pub open spec fn spec_read_integer_in(input: Seq<u8>, p: int, min: int, max: int) -> Result<
    (int, nat),
    Error,
> {
    match spec_read_integer(input, p) {
        Ok((v, n)) => if min <= v <= max {
            Ok((v as int, n))
        } else {
            Err(Error::NumberTooLarge)
        },
        Err(e) => Err(e),
    }
}

/// Read an integer that must lie between `min` and `max`
fn read_integer_in(json: &mut Reader, min: i64, max: i64) -> (r: Result<i64, Error>)
    ensures
        final(json).source() == old(json).source(),
        match spec_read_integer_in(old(json).source(), old(json).offset(), min as int, max as int) {
            Ok((v, n)) => r == Ok::<i64, Error>(v as i64) && final(json).offset() == old(
                json,
            ).offset() + n,
            Err(e) => r == Err::<i64, Error>(e),
        },
{
    match json.read_integer() {
        Ok(v) => if min <= v && v <= max {
            Ok(v)
        } else {
            Err(Error::NumberTooLarge)
        },
        Err(e) => Err(e),
    }
}

/// A type that can be read from JSON
pub trait FromJson: Sized + View {
    /// What reading a value of this type at `p` gives: the value's model and the number of bytes
    /// consumed, or the error
    spec fn spec_from_json(input: Seq<u8>, p: int) -> Result<(Self::V, nat), Error>;

    /// Read a value of this type
    fn from_json(json: &mut Reader) -> (r: Result<Self, Error>)
        ensures
            final(json).source() == old(json).source(),
            match Self::spec_from_json(old(json).source(), old(json).offset()) {
                Ok((v, n)) => r matches Ok(x) && x@ == v && final(json).offset() == old(
                    json,
                ).offset() + n,
                Err(e) => r matches Err(x) && x == e,
            },
    ;
}

impl FromJson for () {
    open spec fn spec_from_json(input: Seq<u8>, p: int) -> Result<((), nat), Error> {
        match expect_word(input, p, word_null()) {
            Ok(n) => Ok(((), n)),
            Err(e) => Err(e),
        }
    }

    fn from_json(json: &mut Reader) -> (r: Result<(), Error>) {
        json.read_null()
    }
}

impl FromJson for bool {
    open spec fn spec_from_json(input: Seq<u8>, p: int) -> Result<(bool, nat), Error> {
        spec_read_boolean(input, p)
    }

    fn from_json(json: &mut Reader) -> (r: Result<bool, Error>) {
        json.read_boolean()
    }
}

impl FromJson for i64 {
    open spec fn spec_from_json(input: Seq<u8>, p: int) -> Result<(i64, nat), Error> {
        spec_read_integer(input, p)
    }

    fn from_json(json: &mut Reader) -> (r: Result<i64, Error>) {
        json.read_integer()
    }
}

impl FromJson for u8 {
    open spec fn spec_from_json(input: Seq<u8>, p: int) -> Result<(u8, nat), Error> {
        match spec_read_integer_in(input, p, 0, 255) {
            Ok((v, n)) => Ok((v as u8, n)),
            Err(e) => Err(e),
        }
    }

    fn from_json(json: &mut Reader) -> (r: Result<u8, Error>) {
        match read_integer_in(json, 0, 255) {
            Ok(v) => Ok(v as u8),
            Err(e) => Err(e),
        }
    }
}

impl FromJson for u16 {
    open spec fn spec_from_json(input: Seq<u8>, p: int) -> Result<(u16, nat), Error> {
        match spec_read_integer_in(input, p, 0, 65535) {
            Ok((v, n)) => Ok((v as u16, n)),
            Err(e) => Err(e),
        }
    }

    fn from_json(json: &mut Reader) -> (r: Result<u16, Error>) {
        match read_integer_in(json, 0, 65535) {
            Ok(v) => Ok(v as u16),
            Err(e) => Err(e),
        }
    }
}

impl FromJson for u32 {
    open spec fn spec_from_json(input: Seq<u8>, p: int) -> Result<(u32, nat), Error> {
        match spec_read_integer_in(input, p, 0, 4294967295) {
            Ok((v, n)) => Ok((v as u32, n)),
            Err(e) => Err(e),
        }
    }

    fn from_json(json: &mut Reader) -> (r: Result<u32, Error>) {
        match read_integer_in(json, 0, 4294967295) {
            Ok(v) => Ok(v as u32),
            Err(e) => Err(e),
        }
    }
}

impl FromJson for u64 {
    open spec fn spec_from_json(input: Seq<u8>, p: int) -> Result<(u64, nat), Error> {
        match spec_read_integer_in(input, p, 0, 9223372036854775807) {
            Ok((v, n)) => Ok((v as u64, n)),
            Err(e) => Err(e),
        }
    }

    fn from_json(json: &mut Reader) -> (r: Result<u64, Error>) {
        match read_integer_in(json, 0, 9223372036854775807) {
            Ok(v) => Ok(v as u64),
            Err(e) => Err(e),
        }
    }
}

impl FromJson for i8 {
    open spec fn spec_from_json(input: Seq<u8>, p: int) -> Result<(i8, nat), Error> {
        match spec_read_integer_in(input, p, -128, 127) {
            Ok((v, n)) => Ok((v as i8, n)),
            Err(e) => Err(e),
        }
    }

    fn from_json(json: &mut Reader) -> (r: Result<i8, Error>) {
        match read_integer_in(json, -128, 127) {
            Ok(v) => Ok(v as i8),
            Err(e) => Err(e),
        }
    }
}

impl FromJson for i16 {
    open spec fn spec_from_json(input: Seq<u8>, p: int) -> Result<(i16, nat), Error> {
        match spec_read_integer_in(input, p, -32768, 32767) {
            Ok((v, n)) => Ok((v as i16, n)),
            Err(e) => Err(e),
        }
    }

    fn from_json(json: &mut Reader) -> (r: Result<i16, Error>) {
        match read_integer_in(json, -32768, 32767) {
            Ok(v) => Ok(v as i16),
            Err(e) => Err(e),
        }
    }
}

impl FromJson for i32 {
    open spec fn spec_from_json(input: Seq<u8>, p: int) -> Result<(i32, nat), Error> {
        match spec_read_integer_in(input, p, -2147483648, 2147483647) {
            Ok((v, n)) => Ok((v as i32, n)),
            Err(e) => Err(e),
        }
    }

    fn from_json(json: &mut Reader) -> (r: Result<i32, Error>) {
        match read_integer_in(json, -2147483648, 2147483647) {
            Ok(v) => Ok(v as i32),
            Err(e) => Err(e),
        }
    }
}

impl FromJson for String {
    open spec fn spec_from_json(input: Seq<u8>, p: int) -> Result<(Seq<char>, nat), Error> {
        match spec_read_string(input, p) {
            Ok((s, n)) => Ok((string_of_bytes(s), n)),
            Err(e) => Err(e),
        }
    }

    fn from_json(json: &mut Reader) -> (r: Result<String, Error>) {
        json.read_string()
    }
}

impl FromJson for Value {
    open spec fn spec_from_json(input: Seq<u8>, p: int) -> Result<(JsonValue, nat), Error> {
        spec_read_any(input, p)
    }

    fn from_json(json: &mut Reader) -> (r: Result<Value, Error>) {
        json.read_any()
    }
}

impl Reader {
    /// Read and parse a value of the given type
    pub fn read<T: FromJson>(&mut self) -> (r: Result<T, Error>)
        ensures
            final(self).source() == old(self).source(),
            match T::spec_from_json(old(self).source(), old(self).offset()) {
                Ok((v, n)) => r matches Ok(x) && x@ == v && final(self).offset() == old(
                    self,
                ).offset() + n,
                Err(e) => r matches Err(x) && x == e,
            },
    {
        T::from_json(self)
    }
}

/// A type that can be written as JSON
pub trait ToJson {
    /// Whether the value can be written: a value's objects must have their keys in ascending
    /// order
    spec fn json_writable(&self) -> bool;

    /// The JSON text of the value, or none if the value has no JSON form (an integer beyond the
    /// range of `i64`)
    spec fn json_text(&self) -> Option<Seq<u8>>;

    /// Write the value; a value without JSON form is an error, and nothing is written
    fn to_json(&self, writer: &mut Writer) -> (r: Result<(), Error>)
        requires
            self.json_writable(),
        ensures
            match self.json_text() {
                Some(t) => r is Ok && final(writer).written() == old(writer).written() + t,
                None => r matches Err(e) && e == Error::NumberTooLarge && final(writer).written()
                    == old(writer).written(),
            },
    ;
}

impl ToJson for () {
    open spec fn json_writable(&self) -> bool {
        true
    }

    open spec fn json_text(&self) -> Option<Seq<u8>> {
        Some(word_null())
    }

    fn to_json(&self, writer: &mut Writer) -> (r: Result<(), Error>) {
        writer.write_null()
    }
}

impl ToJson for bool {
    open spec fn json_writable(&self) -> bool {
        true
    }

    open spec fn json_text(&self) -> Option<Seq<u8>> {
        Some(
            if *self {
                word_true()
            } else {
                word_false()
            },
        )
    }

    fn to_json(&self, writer: &mut Writer) -> (r: Result<(), Error>) {
        writer.write_boolean(*self)
    }
}

impl ToJson for i64 {
    open spec fn json_writable(&self) -> bool {
        true
    }

    open spec fn json_text(&self) -> Option<Seq<u8>> {
        Some(decimal_text(*self as int))
    }

    fn to_json(&self, writer: &mut Writer) -> (r: Result<(), Error>) {
        writer.write_integer(*self)
    }
}

impl ToJson for u8 {
    open spec fn json_writable(&self) -> bool {
        true
    }

    open spec fn json_text(&self) -> Option<Seq<u8>> {
        Some(decimal_text(*self as int))
    }

    fn to_json(&self, writer: &mut Writer) -> (r: Result<(), Error>) {
        writer.write_integer(*self as i64)
    }
}

impl ToJson for u16 {
    open spec fn json_writable(&self) -> bool {
        true
    }

    open spec fn json_text(&self) -> Option<Seq<u8>> {
        Some(decimal_text(*self as int))
    }

    fn to_json(&self, writer: &mut Writer) -> (r: Result<(), Error>) {
        writer.write_integer(*self as i64)
    }
}

impl ToJson for u32 {
    open spec fn json_writable(&self) -> bool {
        true
    }

    open spec fn json_text(&self) -> Option<Seq<u8>> {
        Some(decimal_text(*self as int))
    }

    fn to_json(&self, writer: &mut Writer) -> (r: Result<(), Error>) {
        writer.write_integer(*self as i64)
    }
}

impl ToJson for i8 {
    open spec fn json_writable(&self) -> bool {
        true
    }

    open spec fn json_text(&self) -> Option<Seq<u8>> {
        Some(decimal_text(*self as int))
    }

    fn to_json(&self, writer: &mut Writer) -> (r: Result<(), Error>) {
        writer.write_integer(*self as i64)
    }
}

impl ToJson for i16 {
    open spec fn json_writable(&self) -> bool {
        true
    }

    open spec fn json_text(&self) -> Option<Seq<u8>> {
        Some(decimal_text(*self as int))
    }

    fn to_json(&self, writer: &mut Writer) -> (r: Result<(), Error>) {
        writer.write_integer(*self as i64)
    }
}

impl ToJson for i32 {
    open spec fn json_writable(&self) -> bool {
        true
    }

    open spec fn json_text(&self) -> Option<Seq<u8>> {
        Some(decimal_text(*self as int))
    }

    fn to_json(&self, writer: &mut Writer) -> (r: Result<(), Error>) {
        writer.write_integer(*self as i64)
    }
}

impl ToJson for u64 {
    open spec fn json_writable(&self) -> bool {
        true
    }

    open spec fn json_text(&self) -> Option<Seq<u8>> {
        if *self <= i64::MAX {
            Some(decimal_text(*self as int))
        } else {
            None
        }
    }

    fn to_json(&self, writer: &mut Writer) -> (r: Result<(), Error>) {
        if *self <= 9223372036854775807u64 {
            writer.write_integer(*self as i64)
        } else {
            Err(Error::NumberTooLarge)
        }
    }
}

impl ToJson for String {
    open spec fn json_writable(&self) -> bool {
        true
    }

    open spec fn json_text(&self) -> Option<Seq<u8>> {
        Some(string_text(self@))
    }

    fn to_json(&self, writer: &mut Writer) -> (r: Result<(), Error>) {
        writer.write_string(self.as_str())
    }
}

impl ToJson for Value {
    open spec fn json_writable(&self) -> bool {
        well_formed(self@)
    }

    open spec fn json_text(&self) -> Option<Seq<u8>> {
        Some(value_text(self@))
    }

    fn to_json(&self, writer: &mut Writer) -> (r: Result<(), Error>) {
        writer.write_any(self)
    }
}

/// The JSON text of an integer is a number that reads back as that integer, for every integer
/// type; an unsigned 64-bit integer beyond the range of `i64` has no JSON text
pub proof fn law_integer_json_text(a: u8, b: u16, c: u32, d: u64, e: i8, f: i16, g: i32, h: i64)
    ensures
        a.json_text() matches Some(t) && spec_parse_i64(t) == Some(a as i64),
        b.json_text() matches Some(t) && spec_parse_i64(t) == Some(b as i64),
        c.json_text() matches Some(t) && spec_parse_i64(t) == Some(c as i64),
        d <= i64::MAX ==> (d.json_text() matches Some(t) && spec_parse_i64(t) == Some(d as i64)),
        d > i64::MAX ==> d.json_text() is None,
        e.json_text() matches Some(t) && spec_parse_i64(t) == Some(e as i64),
        f.json_text() matches Some(t) && spec_parse_i64(t) == Some(f as i64),
        g.json_text() matches Some(t) && spec_parse_i64(t) == Some(g as i64),
        h.json_text() matches Some(t) && spec_parse_i64(t) == Some(h),
{
    lemma_parse_decimal_text(a as i64);
    lemma_parse_decimal_text(b as i64);
    lemma_parse_decimal_text(c as i64);
    if d <= i64::MAX {
        lemma_parse_decimal_text(d as i64);
    }
    lemma_parse_decimal_text(e as i64);
    lemma_parse_decimal_text(f as i64);
    lemma_parse_decimal_text(g as i64);
    lemma_parse_decimal_text(h);
}

/// Reading an integer type gives the integer that the text parses as, when it lies in the type's
/// range, and an error that the number is too large otherwise
pub proof fn law_integer_from_json(input: Seq<u8>, p: int)
    ensures
        match spec_read_integer(input, p) {
            Ok((v, n)) => {
                &&& <u8 as FromJson>::spec_from_json(input, p) == if 0 <= v <= u8::MAX {
                    Ok::<(u8, nat), Error>((v as u8, n))
                } else {
                    Err(Error::NumberTooLarge)
                }
                &&& <u16 as FromJson>::spec_from_json(input, p) == if 0 <= v <= u16::MAX {
                    Ok::<(u16, nat), Error>((v as u16, n))
                } else {
                    Err(Error::NumberTooLarge)
                }
                &&& <u32 as FromJson>::spec_from_json(input, p) == if 0 <= v <= u32::MAX {
                    Ok::<(u32, nat), Error>((v as u32, n))
                } else {
                    Err(Error::NumberTooLarge)
                }
                &&& <u64 as FromJson>::spec_from_json(input, p) == if 0 <= v {
                    Ok::<(u64, nat), Error>((v as u64, n))
                } else {
                    Err(Error::NumberTooLarge)
                }
                &&& <i8 as FromJson>::spec_from_json(input, p) == if i8::MIN <= v <= i8::MAX {
                    Ok::<(i8, nat), Error>((v as i8, n))
                } else {
                    Err(Error::NumberTooLarge)
                }
                &&& <i16 as FromJson>::spec_from_json(input, p) == if i16::MIN <= v <= i16::MAX {
                    Ok::<(i16, nat), Error>((v as i16, n))
                } else {
                    Err(Error::NumberTooLarge)
                }
                &&& <i32 as FromJson>::spec_from_json(input, p) == if i32::MIN <= v <= i32::MAX {
                    Ok::<(i32, nat), Error>((v as i32, n))
                } else {
                    Err(Error::NumberTooLarge)
                }
                &&& <i64 as FromJson>::spec_from_json(input, p) == Ok::<(i64, nat), Error>((v, n))
            },
            Err(e) => {
                &&& <u8 as FromJson>::spec_from_json(input, p) == Err::<(u8, nat), Error>(e)
                &&& <u16 as FromJson>::spec_from_json(input, p) == Err::<(u16, nat), Error>(e)
                &&& <u32 as FromJson>::spec_from_json(input, p) == Err::<(u32, nat), Error>(e)
                &&& <u64 as FromJson>::spec_from_json(input, p) == Err::<(u64, nat), Error>(e)
                &&& <i8 as FromJson>::spec_from_json(input, p) == Err::<(i8, nat), Error>(e)
                &&& <i16 as FromJson>::spec_from_json(input, p) == Err::<(i16, nat), Error>(e)
                &&& <i32 as FromJson>::spec_from_json(input, p) == Err::<(i32, nat), Error>(e)
                &&& <i64 as FromJson>::spec_from_json(input, p) == Err::<(i64, nat), Error>(e)
            },
        },
{
}

/// What the writer writes for a boolean, the unit value, an integer or a string reads back as
/// the same value, consuming exactly what was written, whatever follows that cannot continue a
/// number
pub proof fn law_typed_read_of_written(b: bool, s: String, n: i64, rest: Seq<u8>)
    requires
        rest.len() == 0 || !is_number_tail(rest[0]),
    ensures
        b.json_text() matches Some(t) && <bool as FromJson>::spec_from_json(t + rest, 0) == Ok::<
            (bool, nat),
            Error,
        >((b, t.len())),
        ().json_text() matches Some(t) && <() as FromJson>::spec_from_json(t + rest, 0) == Ok::<
            ((), nat),
            Error,
        >(((), t.len())),
        n.json_text() matches Some(t) && <i64 as FromJson>::spec_from_json(t + rest, 0) == Ok::<
            (i64, nat),
            Error,
        >((n, t.len())),
        s.json_text() matches Some(t) && <String as FromJson>::spec_from_json(t + rest, 0)
            == Ok::<(Seq<char>, nat), Error>((s@, t.len())),
{
    read_of_written_value(JsonValue::Boolean(b), rest);
    read_of_written_value(JsonValue::Null, rest);
    read_of_written_value(JsonValue::Integer(n), rest);
    read_of_written_value(JsonValue::String(s@), rest);
    let tn = decimal_text(n as int);
    lemma_parse_decimal_text(n);
    assert(value_text(JsonValue::Integer(n)) == tn);
    let ts = string_text(s@);
    assert(value_text(JsonValue::String(s@)) == ts);
    assert((tn + rest)[0] == tn[0]);
    assert((ts + rest)[0] == 0x22u8);
}

impl Writer {
    /// Write a value of a type that can be written as JSON; a value without JSON form is an
    /// error, and nothing is written
    pub fn write<T: ToJson>(&mut self, value: &T) -> (r: Result<(), Error>)
        requires
            value.json_writable(),
        ensures
            match value.json_text() {
                Some(t) => r is Ok && final(self).written() == old(self).written() + t,
                None => r matches Err(e) && e == Error::NumberTooLarge && final(self).written()
                    == old(self).written(),
            },
    {
        value.to_json(self)
    }
}

} // verus!
