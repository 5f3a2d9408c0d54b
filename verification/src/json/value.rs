//! JSON values and their mathematical model

use crate::text::{parse_i64, parse_unsigned, spec_parse_i64, spec_parse_unsigned};
use vstd::prelude::*;
use vstd::string::{StrSliceExecFns, StringSliceAdditionalSpecFns};
use vstd::utf8::encode_utf8;

verus! {

/// JSON value conversion error
#[derive(Debug, Clone, Copy, PartialEq, Eq)]
pub struct TryFromValueError;

/// JSON value.
///
/// Decimal numbers are kept as the text they are written with (for example `123.456`); turning
/// them into floating point numbers is left to the caller. Object fields are kept ordered by key
/// (ascending, no key twice), like a `BTreeMap<String, Value>`: `well_formed` states it, the
/// reader gives such objects and `Writer::write_any` asks for them.
#[derive(Debug, PartialEq)]
pub enum Value {
    Null,
    Boolean(bool),
    Integer(i64),
    Decimal(String),
    String(String),
    Array(Vec<Value>),
    Object(Vec<(String, Value)>),
}

/// Mathematical model of a JSON value
pub enum JsonValue {
    Null,
    Boolean(bool),
    Integer(i64),
    Decimal(Seq<char>),
    String(Seq<char>),
    Array(Seq<JsonValue>),
    Object(Seq<(Seq<char>, JsonValue)>),
}

/// Model of a sequence of values
pub open spec fn values_view(vs: Seq<Value>) -> Seq<JsonValue>
    decreases vs,
{
    if vs.len() == 0 {
        seq![]
    } else {
        values_view(vs.drop_last()).push(value_view(vs.last()))
    }
}

/// Model of a sequence of object fields
pub open spec fn fields_view(fs: Seq<(String, Value)>) -> Seq<(Seq<char>, JsonValue)>
    decreases fs,
{
    if fs.len() == 0 {
        seq![]
    } else {
        fields_view(fs.drop_last()).push((fs.last().0@, value_view(fs.last().1)))
    }
}

/// Model of a value
pub open spec fn value_view(v: Value) -> JsonValue
    decreases v,
{
    match v {
        Value::Null => JsonValue::Null,
        Value::Boolean(b) => JsonValue::Boolean(b),
        Value::Integer(n) => JsonValue::Integer(n),
        Value::Decimal(t) => JsonValue::Decimal(t@),
        Value::String(s) => JsonValue::String(s@),
        Value::Array(vs) => JsonValue::Array(values_view(vs@)),
        Value::Object(fs) => JsonValue::Object(fields_view(fs@)),
    }
}

impl View for Value {
    type V = JsonValue;

    open spec fn view(&self) -> JsonValue {
        value_view(*self)
    }
}

pub proof fn lemma_values_view(vs: Seq<Value>)
    ensures
        values_view(vs).len() == vs.len(),
        forall|i: int| 0 <= i < vs.len() ==> #[trigger] values_view(vs)[i] == value_view(vs[i]),
    decreases vs.len(),
{
    if vs.len() > 0 {
        lemma_values_view(vs.drop_last());
    }
}

pub proof fn lemma_fields_view(fs: Seq<(String, Value)>)
    ensures
        fields_view(fs).len() == fs.len(),
        forall|i: int|
            0 <= i < fs.len() ==> #[trigger] fields_view(fs)[i] == (fs[i].0@, value_view(fs[i].1)),
    decreases fs.len(),
{
    if fs.len() > 0 {
        lemma_fields_view(fs.drop_last());
    }
}

/// Strict lexicographic order of keys by character code (the order of `String`'s `Ord`, which
/// compares UTF-8 bytes and therefore orders by code point)
pub open spec fn key_lt(a: Seq<char>, b: Seq<char>) -> bool
    decreases a.len(),
{
    if a.len() == 0 {
        b.len() > 0
    } else if b.len() == 0 {
        false
    } else if a[0] < b[0] {
        true
    } else if a[0] == b[0] {
        key_lt(a.drop_first(), b.drop_first())
    } else {
        false
    }
}

/// Object fields in strictly ascending key order
pub open spec fn keys_ascending(fs: Seq<(Seq<char>, JsonValue)>) -> bool {
    forall|i: int, j: int| 0 <= i < j < fs.len() ==> key_lt(#[trigger] fs[i].0, #[trigger] fs[j].0)
}

/// A value whose objects, at every depth, have their fields in strictly ascending key order, as
/// the library's objects keep them
pub open spec fn well_formed(v: JsonValue) -> bool
    decreases v,
{
    match v {
        JsonValue::Null => true,
        JsonValue::Boolean(_) => true,
        JsonValue::Integer(_) => true,
        JsonValue::Decimal(_) => true,
        JsonValue::String(_) => true,
        JsonValue::Array(vs) => forall|i: int| 0 <= i < vs.len() ==> well_formed(#[trigger] vs[i]),
        JsonValue::Object(fs) => {
            &&& keys_ascending(fs)
            &&& forall|i: int| 0 <= i < fs.len() ==> well_formed(#[trigger] fs[i].1)
        },
    }
}

/// Object fields whose values are well formed (in whatever key order)
pub open spec fn field_values_well_formed(fs: Seq<(Seq<char>, JsonValue)>) -> bool {
    forall|i: int| 0 <= i < fs.len() ==> well_formed(#[trigger] fs[i].1)
}

/// The elements of a well-formed array and the field values of a well-formed object are well
/// formed
pub proof fn lemma_well_formed_parts(v: JsonValue)
    requires
        well_formed(v),
    ensures
        v matches JsonValue::Array(vs) ==> forall|i: int|
            0 <= i < vs.len() ==> well_formed(#[trigger] vs[i]),
        v matches JsonValue::Object(fs) ==> field_values_well_formed(fs),
{
    match v {
        JsonValue::Array(vs) => {
            assert(forall|i: int| 0 <= i < vs.len() ==> well_formed(#[trigger] vs[i]));
        },
        JsonValue::Object(fs) => {
            assert(forall|i: int| 0 <= i < fs.len() ==> well_formed(#[trigger] fs[i].1));
        },
        _ => {},
    }
}

/// Object fields after inserting (or replacing) the given key, keeping ascending key order, as
/// `BTreeMap::insert` does
pub open spec fn fields_insert(
    fs: Seq<(Seq<char>, JsonValue)>,
    k: Seq<char>,
    v: JsonValue,
) -> Seq<(Seq<char>, JsonValue)>
    decreases fs.len(),
{
    if fs.len() == 0 {
        seq![(k, v)]
    } else if key_lt(fs.last().0, k) {
        fs.push((k, v))
    } else if fs.last().0 == k {
        fs.drop_last().push((k, v))
    } else {
        fields_insert(fs.drop_last(), k, v).push(fs.last())
    }
}

/// Unsigned integer of a value: an integer up to the maximum, or a string that parses as one
pub open spec fn spec_to_unsigned(v: JsonValue, max: nat) -> Option<nat> {
    match v {
        JsonValue::Integer(n) => if 0 <= n <= max {
            Some(n as nat)
        } else {
            None
        },
        JsonValue::String(s) => spec_parse_unsigned(encode_utf8(s), max),
        _ => None,
    }
}

/// Signed integer of a value: an integer in range, or a string that parses as one
pub open spec fn spec_to_signed(v: JsonValue, min: int, max: int) -> Option<int> {
    match v {
        JsonValue::Integer(n) => if min <= n <= max {
            Some(n as int)
        } else {
            None
        },
        JsonValue::String(s) => match spec_parse_i64(encode_utf8(s)) {
            Some(n) => if min <= n <= max {
                Some(n as int)
            } else {
                None
            },
            None => None,
        },
        _ => None,
    }
}

impl Value {
    /// Boolean of a value
    pub fn to_bool(&self) -> (r: Result<bool, TryFromValueError>)
        ensures
            match self@ {
                JsonValue::Boolean(b) => r == Ok::<bool, TryFromValueError>(b),
                _ => r is Err,
            },
    {
        match self {
            Value::Boolean(b) => Ok(*b),
            _ => Err(TryFromValueError),
        }
    }

    /// Null of a value
    pub fn to_unit(&self) -> (r: Result<(), TryFromValueError>)
        ensures
            r is Ok <==> self@ is Null,
    {
        match self {
            Value::Null => Ok(()),
            _ => Err(TryFromValueError),
        }
    }

    /// Unsigned integer of a value up to the given maximum (`TryFrom<Value>` of the unsigned
    /// integer types)
    pub fn to_unsigned(&self, max: u64) -> (r: Result<u64, TryFromValueError>)
        ensures
            match spec_to_unsigned(self@, max as nat) {
                Some(n) => r == Ok::<u64, TryFromValueError>(n as u64),
                None => r is Err,
            },
    {
        match self {
            Value::Integer(n) => {
                if *n >= 0 && (*n as u64) <= max {
                    Ok(*n as u64)
                } else {
                    Err(TryFromValueError)
                }
            },
            Value::String(s) => {
                let bytes = s.as_str().as_bytes_vec();
                match parse_unsigned(bytes.as_slice(), max) {
                    Some(n) => Ok(n),
                    None => Err(TryFromValueError),
                }
            },
            _ => Err(TryFromValueError),
        }
    }

    /// Signed integer of a value within the given range (`TryFrom<Value>` of the signed integer
    /// types)
    pub fn to_signed(&self, min: i64, max: i64) -> (r: Result<i64, TryFromValueError>)
        ensures
            match spec_to_signed(self@, min as int, max as int) {
                Some(n) => r == Ok::<i64, TryFromValueError>(n as i64),
                None => r is Err,
            },
    {
        match self {
            Value::Integer(n) => {
                if min <= *n && *n <= max {
                    Ok(*n)
                } else {
                    Err(TryFromValueError)
                }
            },
            Value::String(s) => {
                let bytes = s.as_str().as_bytes_vec();
                match parse_i64(bytes.as_slice()) {
                    Some(n) => if min <= n && n <= max {
                        Ok(n)
                    } else {
                        Err(TryFromValueError)
                    },
                    None => Err(TryFromValueError),
                }
            },
            _ => Err(TryFromValueError),
        }
    }

    /// `u8` of a value
    pub fn to_u8(&self) -> (r: Result<u8, TryFromValueError>)
        ensures
            match spec_to_unsigned(self@, u8::MAX as nat) {
                Some(n) => r == Ok::<u8, TryFromValueError>(n as u8),
                None => r is Err,
            },
    {
        match self.to_unsigned(u8::MAX as u64) {
            Ok(n) => Ok(n as u8),
            Err(e) => Err(e),
        }
    }

    /// `u16` of a value
    pub fn to_u16(&self) -> (r: Result<u16, TryFromValueError>)
        ensures
            match spec_to_unsigned(self@, u16::MAX as nat) {
                Some(n) => r == Ok::<u16, TryFromValueError>(n as u16),
                None => r is Err,
            },
    {
        match self.to_unsigned(u16::MAX as u64) {
            Ok(n) => Ok(n as u16),
            Err(e) => Err(e),
        }
    }

    /// `u32` of a value
    pub fn to_u32(&self) -> (r: Result<u32, TryFromValueError>)
        ensures
            match spec_to_unsigned(self@, u32::MAX as nat) {
                Some(n) => r == Ok::<u32, TryFromValueError>(n as u32),
                None => r is Err,
            },
    {
        match self.to_unsigned(u32::MAX as u64) {
            Ok(n) => Ok(n as u32),
            Err(e) => Err(e),
        }
    }

    /// `u64` of a value
    pub fn to_u64(&self) -> (r: Result<u64, TryFromValueError>)
        ensures
            match spec_to_unsigned(self@, u64::MAX as nat) {
                Some(n) => r == Ok::<u64, TryFromValueError>(n as u64),
                None => r is Err,
            },
    {
        self.to_unsigned(u64::MAX)
    }

    /// `i8` of a value
    pub fn to_i8(&self) -> (r: Result<i8, TryFromValueError>)
        ensures
            match spec_to_signed(self@, i8::MIN as int, i8::MAX as int) {
                Some(n) => r == Ok::<i8, TryFromValueError>(n as i8),
                None => r is Err,
            },
    {
        match self.to_signed(i8::MIN as i64, i8::MAX as i64) {
            Ok(n) => Ok(n as i8),
            Err(e) => Err(e),
        }
    }

    /// `i16` of a value
    pub fn to_i16(&self) -> (r: Result<i16, TryFromValueError>)
        ensures
            match spec_to_signed(self@, i16::MIN as int, i16::MAX as int) {
                Some(n) => r == Ok::<i16, TryFromValueError>(n as i16),
                None => r is Err,
            },
    {
        match self.to_signed(i16::MIN as i64, i16::MAX as i64) {
            Ok(n) => Ok(n as i16),
            Err(e) => Err(e),
        }
    }

    /// `i32` of a value
    pub fn to_i32(&self) -> (r: Result<i32, TryFromValueError>)
        ensures
            match spec_to_signed(self@, i32::MIN as int, i32::MAX as int) {
                Some(n) => r == Ok::<i32, TryFromValueError>(n as i32),
                None => r is Err,
            },
    {
        match self.to_signed(i32::MIN as i64, i32::MAX as i64) {
            Ok(n) => Ok(n as i32),
            Err(e) => Err(e),
        }
    }

    /// `i64` of a value
    pub fn to_i64(&self) -> (r: Result<i64, TryFromValueError>)
        ensures
            match spec_to_signed(self@, i64::MIN as int, i64::MAX as int) {
                Some(n) => r == Ok::<i64, TryFromValueError>(n as i64),
                None => r is Err,
            },
    {
        self.to_signed(i64::MIN, i64::MAX)
    }

    /// String of a value
    pub fn into_string(self) -> (r: Result<String, TryFromValueError>)
        ensures
            match self@ {
                JsonValue::String(s) => r matches Ok(x) && x@ == s,
                _ => r is Err,
            },
    {
        match self {
            Value::String(s) => Ok(s),
            _ => Err(TryFromValueError),
        }
    }

    /// Array elements of a value
    pub fn into_array(self) -> (r: Result<Vec<Value>, TryFromValueError>)
        ensures
            match self@ {
                JsonValue::Array(vs) => r matches Ok(x) && values_view(x@) == vs,
                _ => r is Err,
            },
    {
        match self {
            Value::Array(vs) => Ok(vs),
            _ => Err(TryFromValueError),
        }
    }

    /// Object fields of a value
    pub fn into_object(self) -> (r: Result<Vec<(String, Value)>, TryFromValueError>)
        ensures
            match self@ {
                JsonValue::Object(fs) => r matches Ok(x) && fields_view(x@) == fs,
                _ => r is Err,
            },
    {
        match self {
            Value::Object(fs) => Ok(fs),
            _ => Err(TryFromValueError),
        }
    }

    /// Integer value of an unsigned number, if it fits into a JSON integer (`TryFrom<u64>`)
    pub fn try_from_u64(n: u64) -> (r: Result<Value, TryFromValueError>)
        ensures
            n <= i64::MAX ==> (r matches Ok(v) && v@ == JsonValue::Integer(n as i64)),
            n > i64::MAX ==> r is Err,
    {
        if n <= 9223372036854775807u64 {
            Ok(Value::Integer(n as i64))
        } else {
            Err(TryFromValueError)
        }
    }
}

} // verus!
