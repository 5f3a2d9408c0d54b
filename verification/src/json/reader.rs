//! JSON reader: parses JSON from a byte buffer without building an intermediate token list

use crate::json::error::{spec_unexpected, Error};
use crate::json::value::{
    fields_insert, fields_view, key_lt, lemma_fields_view, lemma_values_view, value_view,
    values_view, JsonValue, Value,
};
use crate::text::{
    all_digits, ascii_chars, ascii_to_string, is_ascii_ws, is_digit, parse_i64, spec_parse_i64,
};
use vstd::prelude::*;
use vstd::string::StrSliceExecFns;
use vstd::utf8::{decode_utf8, encode_scalar, is_scalar, valid_utf8};

verus! {

// ---------------------------------------------------------------------------------------------
// Model of the reader
// ---------------------------------------------------------------------------------------------

/// Number of ASCII whitespace bytes starting at `p`
pub open spec fn ws_len(input: Seq<u8>, p: int) -> nat
    decreases input.len() - p,
{
    if 0 <= p < input.len() && is_ascii_ws(input[p]) {
        1 + ws_len(input, p + 1)
    } else {
        0
    }
}

/// Value of a hex digit byte, in either case
pub open spec fn hex_value(b: u8) -> Option<u32> {
    if 0x30u8 <= b <= 0x39u8 {
        Some((b - 0x30u8) as u32)
    } else if 0x61u8 <= b <= 0x66u8 {
        Some((b - 0x61u8 + 10) as u32)
    } else if 0x41u8 <= b <= 0x46u8 {
        Some((b - 0x41u8 + 10) as u32)
    } else {
        None
    }
}

/// The hex digit at `q`
pub open spec fn hex_at(input: Seq<u8>, q: int) -> Result<u32, Error> {
    if q < 0 || q >= input.len() {
        Err(Error::Eof)
    } else {
        match hex_value(input[q]) {
            Some(d) => Ok(d),
            None => Err(spec_unexpected(input[q])),
        }
    }
}

/// The number written by the four hex digits at `q`, the first error from the left if they are
/// not four hex digits
pub open spec fn hex4(input: Seq<u8>, q: int) -> Result<u32, Error> {
    match hex_at(input, q) {
        Err(e) => Err(e),
        Ok(d0) => match hex_at(input, q + 1) {
            Err(e) => Err(e),
            Ok(d1) => match hex_at(input, q + 2) {
                Err(e) => Err(e),
                Ok(d2) => match hex_at(input, q + 3) {
                    Err(e) => Err(e),
                    Ok(d3) => Ok((d0 * 4096 + d1 * 256 + d2 * 16 + d3) as u32),
                },
            },
        },
    }
}

/// A UTF-16 leading (high) surrogate
pub open spec fn is_high_surrogate(u: u32) -> bool {
    0xD800 <= u <= 0xDBFF
}

/// A UTF-16 trailing (low) surrogate
pub open spec fn is_low_surrogate(u: u32) -> bool {
    0xDC00 <= u <= 0xDFFF
}

/// The code point of a surrogate pair
pub open spec fn surrogate_pair(hi: u32, lo: u32) -> u32 {
    (0x10000 + (hi - 0xD800) * 0x400 + (lo - 0xDC00)) as u32
}

/// UTF-8 bytes of U+FFFD, the replacement character
pub open spec fn replacement_bytes() -> Seq<u8> {
    encode_scalar(0xFFFDu32)
}

/// A `\uXXXX` escape at `q` that holds a trailing surrogate: its value
pub open spec fn low_surrogate_at(input: Seq<u8>, q: int) -> Option<u32> {
    if 0 <= q && q + 1 < input.len() && input[q] == 0x5cu8 && input[q + 1] == 0x75u8 {
        match hex4(input, q + 2) {
            Ok(lo) => if is_low_surrogate(lo) {
                Some(lo)
            } else {
                None
            },
            Err(_) => None,
        }
    } else {
        None
    }
}

/// The escape sequence whose backslash is at `p`: the UTF-8 bytes it stands for and its length.
/// `\"`, `\\`, `\/`, `\b`, `\f`, `\n`, `\r` and `\t` stand for one byte; `\uXXXX` for the
/// UTF-8 encoding of the code point, where a leading surrogate followed by an escaped trailing
/// surrogate makes one code point and a surrogate without its partner stands for U+FFFD
#[verifier::opaque]
pub open spec fn escape_at(input: Seq<u8>, p: int) -> Result<(Seq<u8>, nat), Error> {
    if p < 0 || p + 1 >= input.len() {
        Err(Error::Eof)
    } else {
        let c = input[p + 1];
        if c == 0x22u8 || c == 0x5cu8 || c == 0x2fu8 {
            Ok((seq![c], 2))
        } else if c == 0x62u8 {
            Ok((seq![0x08u8], 2))
        } else if c == 0x66u8 {
            Ok((seq![0x0cu8], 2))
        } else if c == 0x6eu8 {
            Ok((seq![0x0au8], 2))
        } else if c == 0x72u8 {
            Ok((seq![0x0du8], 2))
        } else if c == 0x74u8 {
            Ok((seq![0x09u8], 2))
        } else if c == 0x75u8 {
            match hex4(input, p + 2) {
                Err(e) => Err(e),
                Ok(u) => if is_high_surrogate(u) {
                    match low_surrogate_at(input, p + 6) {
                        Some(lo) => Ok((encode_scalar(surrogate_pair(u, lo)), 12)),
                        None => Ok((replacement_bytes(), 6)),
                    }
                } else if is_low_surrogate(u) {
                    Ok((replacement_bytes(), 6))
                } else {
                    Ok((encode_scalar(u), 6))
                },
            }
        } else {
            Err(spec_unexpected(c))
        }
    }
}

/// An escape sequence that decodes is at least two bytes long and lies within the input
pub proof fn lemma_escape_len(input: Seq<u8>, p: int)
    ensures
        escape_at(input, p) matches Ok((_, n)) ==> 2 <= n && p + n <= input.len(),
{
    reveal(escape_at);
}

/// Body of a string after its opening quote: the UTF-8 bytes it stands for (escape sequences
/// decoded) and the number of bytes consumed including the closing quote
pub open spec fn string_body(input: Seq<u8>, p: int) -> Result<(Seq<u8>, nat), Error>
    decreases input.len() - p,
{
    if p < 0 || p >= input.len() {
        Err(Error::Eof)
    } else if input[p] == 0x5cu8 {
        match escape_at(input, p) {
            Err(e) => Err(e),
            Ok((bs, n)) => {
                proof {
                    lemma_escape_len(input, p);
                }
                match string_body(input, p + n) {
                    Ok((s, m)) => Ok((bs + s, m + n)),
                    Err(e) => Err(e),
                }
            },
        }
    } else if input[p] == 0x22u8 {
        Ok((seq![], 1))
    } else {
        match string_body(input, p + 1) {
            Ok((s, n)) => Ok((seq![input[p]] + s, n + 1)),
            Err(e) => Err(e),
        }
    }
}

/// A JSON string at `p`: its raw bytes and the number of bytes consumed
pub open spec fn spec_read_string(input: Seq<u8>, p: int) -> Result<(Seq<u8>, nat), Error> {
    if p < 0 || p >= input.len() {
        Err(Error::Eof)
    } else if input[p] != 0x22u8 {
        Err(spec_unexpected(input[p]))
    } else {
        match string_body(input, p + 1) {
            Ok((s, n)) => Ok((s, n + 1)),
            Err(e) => Err(e),
        }
    }
}

/// Byte allowed after the first byte of a number: a digit or a decimal point
pub open spec fn is_number_tail(b: u8) -> bool {
    is_digit(b) || b == 0x2eu8
}

/// Number of digit or decimal point bytes starting at `p`
pub open spec fn digits_run(input: Seq<u8>, p: int) -> nat
    decreases input.len() - p,
{
    if 0 <= p < input.len() && is_number_tail(input[p]) {
        1 + digits_run(input, p + 1)
    } else {
        0
    }
}

/// The text of a number at `p` (a minus sign or digit, then digits and decimal points) and the
/// number of bytes consumed
pub open spec fn spec_read_digits(input: Seq<u8>, p: int) -> Result<(Seq<u8>, nat), Error> {
    if p < 0 || p >= input.len() {
        Err(Error::Eof)
    } else if input[p] == 0x2du8 || is_digit(input[p]) {
        let n = 1 + digits_run(input, p + 1);
        Ok((input.subrange(p, p + n), n))
    } else {
        Err(spec_unexpected(input[p]))
    }
}

/// Text that `f64::from_str` accepts among texts made of signs, digits and decimal points: an
/// optional sign, then digits with at most one decimal point and at least one digit
pub open spec fn decimal_syntax(t: Seq<u8>) -> bool {
    let body = sign_stripped(t);
    &&& forall|i: int| 0 <= i < body.len() ==> is_number_tail(#[trigger] body[i])
    &&& forall|i: int, j: int|
        0 <= i < j < body.len() ==> !(#[trigger] body[i] == 0x2eu8 && #[trigger] body[j] == 0x2eu8)
    &&& exists|i: int| 0 <= i < body.len() && is_digit(#[trigger] body[i])
}

/// Text after an optional leading sign
pub open spec fn sign_stripped(t: Seq<u8>) -> Seq<u8> {
    if t.len() > 0 && (t[0] == 0x2du8 || t[0] == 0x2bu8) {
        t.skip(1)
    } else {
        t
    }
}

/// Value of a number text: an integer if it parses as `i64`, else a decimal if it is decimal
/// syntax, else an invalid type
pub open spec fn number_value(t: Seq<u8>) -> Result<JsonValue, Error> {
    match spec_parse_i64(t) {
        Some(n) => Ok(JsonValue::Integer(n)),
        None => if decimal_syntax(t) {
            Ok(JsonValue::Decimal(ascii_chars(t)))
        } else {
            Err(Error::InvalidType)
        },
    }
}

/// Expect the bytes of a word at `p`; number of bytes consumed
pub open spec fn expect_word(input: Seq<u8>, p: int, w: Seq<u8>) -> Result<nat, Error>
    decreases w.len(),
{
    if w.len() == 0 {
        Ok(0)
    } else if p < 0 || p >= input.len() {
        Err(Error::Eof)
    } else if input[p] != w[0] {
        Err(spec_unexpected(input[p]))
    } else {
        match expect_word(input, p + 1, w.drop_first()) {
            Ok(n) => Ok(n + 1),
            Err(e) => Err(e),
        }
    }
}

pub open spec fn word_false() -> Seq<u8> {
    seq![0x66u8, 0x61u8, 0x6cu8, 0x73u8, 0x65u8]
}

pub open spec fn word_true() -> Seq<u8> {
    seq![0x74u8, 0x72u8, 0x75u8, 0x65u8]
}

pub open spec fn word_null() -> Seq<u8> {
    seq![0x6eu8, 0x75u8, 0x6cu8, 0x6cu8]
}

/// A JSON boolean at `p`
pub open spec fn spec_read_boolean(input: Seq<u8>, p: int) -> Result<(bool, nat), Error> {
    if p < 0 || p >= input.len() {
        Err(Error::Eof)
    } else if input[p] == 0x66u8 {
        match expect_word(input, p, word_false()) {
            Ok(n) => Ok((false, n)),
            Err(e) => Err(e),
        }
    } else if input[p] == 0x74u8 {
        match expect_word(input, p, word_true()) {
            Ok(n) => Ok((true, n)),
            Err(e) => Err(e),
        }
    } else {
        Err(spec_unexpected(input[p]))
    }
}

/// Characters of a string read from the given bytes (invalid UTF-8 replaced, as
/// `String::from_utf8_lossy` does)
pub uninterp spec fn utf8_lossy(bytes: Seq<u8>) -> Seq<char>;

/// Characters of a string read from the given bytes: the characters they encode where they are
/// valid UTF-8, else what `String::from_utf8_lossy` makes of them
pub open spec fn string_of_bytes(bytes: Seq<u8>) -> Seq<char> {
    if valid_utf8(bytes) {
        decode_utf8(bytes)
    } else {
        utf8_lossy(bytes)
    }
}

/// Any JSON value at `p` and the number of bytes consumed
pub open spec fn spec_read_any(input: Seq<u8>, p: int) -> Result<(JsonValue, nat), Error>
    decreases input.len() - p, 0nat,
{
    if p < 0 || p >= input.len() {
        Err(Error::Eof)
    } else {
        let b = input[p];
        if b == 0x7bu8 {
            match object_fields(input, p + 1, seq![]) {
                Ok((fs, n)) => Ok((JsonValue::Object(fs), n + 1)),
                Err(e) => Err(e),
            }
        } else if b == 0x5bu8 {
            match array_items(input, p + 1, seq![]) {
                Ok((vs, n)) => Ok((JsonValue::Array(vs), n + 1)),
                Err(e) => Err(e),
            }
        } else if b == 0x22u8 {
            match spec_read_string(input, p) {
                Ok((s, n)) => Ok((JsonValue::String(string_of_bytes(s)), n)),
                Err(e) => Err(e),
            }
        } else if b == 0x2du8 || is_digit(b) {
            match spec_read_digits(input, p) {
                Ok((t, n)) => match number_value(t) {
                    Ok(v) => Ok((v, n)),
                    Err(e) => Err(e),
                },
                Err(e) => Err(e),
            }
        } else if b == 0x66u8 || b == 0x74u8 {
            match spec_read_boolean(input, p) {
                Ok((v, n)) => Ok((JsonValue::Boolean(v), n)),
                Err(e) => Err(e),
            }
        } else if b == 0x6eu8 {
            match expect_word(input, p, word_null()) {
                Ok(n) => Ok((JsonValue::Null, n)),
                Err(e) => Err(e),
            }
        } else {
            Err(spec_unexpected(b))
        }
    }
}

/// Remaining array elements after `[` (or after a `,`) at `p`, appended to `acc`, and the
/// number of bytes consumed up to and including the closing `]`
pub open spec fn array_items(input: Seq<u8>, p: int, acc: Seq<JsonValue>) -> Result<
    (Seq<JsonValue>, nat),
    Error,
>
    decreases input.len() - p, 1nat,
{
    let q = p + ws_len(input, p);
    if p < 0 || q >= input.len() {
        Err(Error::Eof)
    } else if input[q] == 0x5du8 {
        Ok((acc, (q - p + 1) as nat))
    } else {
        match spec_read_any(input, q) {
            Err(e) => Err(e),
            Ok((v, n)) => {
                let r = q + n + ws_len(input, q + n);
                if r >= input.len() {
                    Err(Error::Eof)
                } else if input[r] == 0x2cu8 {
                    match array_items(input, r + 1, acc.push(v)) {
                        Ok((vs, m)) => Ok((vs, (r + 1 - p + m) as nat)),
                        Err(e) => Err(e),
                    }
                } else if input[r] == 0x5du8 {
                    Ok((acc.push(v), (r + 1 - p) as nat))
                } else {
                    Err(spec_unexpected(input[r]))
                }
            },
        }
    }
}

/// Remaining object fields after `{` (or after a `,`) at `p`, inserted into `acc`, and the
/// number of bytes consumed up to and including the closing `}`
pub open spec fn object_fields(
    input: Seq<u8>,
    p: int,
    acc: Seq<(Seq<char>, JsonValue)>,
) -> Result<(Seq<(Seq<char>, JsonValue)>, nat), Error>
    decreases input.len() - p, 1nat,
{
    let q = p + ws_len(input, p);
    if p < 0 || q >= input.len() {
        Err(Error::Eof)
    } else if input[q] == 0x7du8 {
        Ok((acc, (q - p + 1) as nat))
    } else {
        match spec_read_string(input, q) {
            Err(e) => Err(e),
            Ok((kb, n1)) => {
                let q2 = q + n1 + ws_len(input, q + n1);
                if q2 >= input.len() {
                    Err(Error::Eof)
                } else if input[q2] != 0x3au8 {
                    Err(spec_unexpected(input[q2]))
                } else {
                    let q4 = q2 + 1 + ws_len(input, q2 + 1);
                    if q4 > input.len() {
                        Err(Error::Eof)
                    } else {
                        match spec_read_any(input, q4) {
                            Err(e) => Err(e),
                            Ok((v, n)) => {
                                let acc2 = fields_insert(acc, string_of_bytes(kb), v);
                                let r = q4 + n + ws_len(input, q4 + n);
                                if r >= input.len() {
                                    Err(Error::Eof)
                                } else if input[r] == 0x2cu8 {
                                    match object_fields(input, r + 1, acc2) {
                                        Ok((fs, m)) => Ok((fs, (r + 1 - p + m) as nat)),
                                        Err(e) => Err(e),
                                    }
                                } else if input[r] == 0x7du8 {
                                    Ok((acc2, (r + 1 - p) as nat))
                                } else {
                                    Err(spec_unexpected(input[r]))
                                }
                            },
                        }
                    }
                }
            },
        }
    }
}

// ---------------------------------------------------------------------------------------------
// Conversions
// ---------------------------------------------------------------------------------------------

/// `String::from_utf8_lossy`: the characters the bytes encode, invalid sequences replaced by
/// U+FFFD. Stated: the result is the name `utf8_lossy` of the bytes, and for valid UTF-8 it is
/// the decoded characters. The replacement rule for invalid input is not stated.
#[verifier::external_body]
fn string_from_utf8_lossy(bytes: &[u8]) -> (s: String)
    ensures
        s@ == utf8_lossy(bytes@),
        valid_utf8(bytes@) ==> s@ == decode_utf8(bytes@),
{
    String::from_utf8_lossy(bytes).into_owned()
}

// ---------------------------------------------------------------------------------------------
// Parsing functions over a byte slice and a position
// ---------------------------------------------------------------------------------------------

proof fn lemma_ws_len_bound(input: Seq<u8>, p: int)
    requires
        0 <= p,
    ensures
        p + ws_len(input, p) <= (if p <= input.len() { input.len() as int } else { p }),
        p + ws_len(input, p) < input.len() ==> !is_ascii_ws(input[p + ws_len(input, p)]),
    decreases input.len() - p,
{
    if 0 <= p < input.len() && is_ascii_ws(input[p]) {
        lemma_ws_len_bound(input, p + 1);
    }
}

proof fn lemma_digits_run_bound(input: Seq<u8>, p: int)
    requires
        0 <= p,
    ensures
        p + digits_run(input, p) <= (if p <= input.len() { input.len() as int } else { p }),
        forall|i: int| p <= i < p + digits_run(input, p) ==> is_number_tail(#[trigger] input[i]),
    decreases input.len() - p,
{
    if 0 <= p < input.len() && is_number_tail(input[p]) {
        lemma_digits_run_bound(input, p + 1);
    }
}

/// Position after the whitespace starting at `p`
fn skip_ws(input: &[u8], p: usize) -> (q: usize)
    requires
        p <= input@.len(),
    ensures
        q == p + ws_len(input@, p as int),
        q <= input@.len(),
{
    let mut q = p;
    proof {
        lemma_ws_len_bound(input@, p as int);
    }
    while q < input.len() && (input[q] == 0x20u8 || input[q] == 0x09u8 || input[q] == 0x0au8
        || input[q] == 0x0cu8 || input[q] == 0x0du8)
        invariant
            p <= q <= input@.len(),
            ws_len(input@, p as int) == (q - p) + ws_len(input@, q as int),
        decreases input.len() - q,
    {
        q = q + 1;
    }
    q
}

/// Prefix a string body result with the given bytes already read
pub open spec fn body_after(acc: Seq<u8>, k: nat, r: Result<(Seq<u8>, nat), Error>) -> Result<
    (Seq<u8>, nat),
    Error,
> {
    match r {
        Ok((s, n)) => Ok((acc + s, n + k)),
        Err(e) => Err(e),
    }
}

/// Value of the hex digit at `q`
fn read_hex_digit(input: &[u8], q: usize) -> (r: Result<u32, Error>)
    ensures
        r == hex_at(input@, q as int),
        r matches Ok(d) ==> d < 16,
        r is Ok ==> q < input@.len(),
{
    if q >= input.len() {
        return Err(Error::Eof);
    }
    let b = input[q];
    if 0x30u8 <= b && b <= 0x39u8 {
        Ok((b - 0x30u8) as u32)
    } else if 0x61u8 <= b && b <= 0x66u8 {
        Ok((b - 0x61u8 + 10) as u32)
    } else if 0x41u8 <= b && b <= 0x46u8 {
        Ok((b - 0x41u8 + 10) as u32)
    } else {
        Err(Error::unexpected(b))
    }
}

/// Number written by the four hex digits at `q`
fn read_hex4(input: &[u8], q: usize) -> (r: Result<u32, Error>)
    requires
        q <= input@.len(),
    ensures
        r == hex4(input@, q as int),
        r matches Ok(u) ==> u < 0x10000,
        r is Ok ==> q + 4 <= input@.len(),
{
    let len = input.len();
    let d0 = match read_hex_digit(input, q) {
        Ok(d) => d,
        Err(e) => return Err(e),
    };
    let d1 = match read_hex_digit(input, q + 1) {
        Ok(d) => d,
        Err(e) => return Err(e),
    };
    let d2 = match read_hex_digit(input, q + 2) {
        Ok(d) => d,
        Err(e) => return Err(e),
    };
    let d3 = match read_hex_digit(input, q + 3) {
        Ok(d) => d,
        Err(e) => return Err(e),
    };
    Ok(d0 * 4096 + d1 * 256 + d2 * 16 + d3)
}

/// A `\uXXXX` escape at `q` holding a trailing surrogate: its value
fn read_low_surrogate(input: &[u8], q: usize) -> (r: Option<u32>)
    requires
        q <= input@.len(),
    ensures
        r == low_surrogate_at(input@, q as int),
{
    if q < input.len() && input.len() - q > 1 && input[q] == 0x5cu8 && input[q + 1] == 0x75u8 {
        match read_hex4(input, q + 2) {
            Ok(lo) => if 0xDC00u32 <= lo && lo <= 0xDFFFu32 {
                Some(lo)
            } else {
                None
            },
            Err(_) => None,
        }
    } else {
        None
    }
}

/// Append the UTF-8 encoding of a Unicode scalar value
fn push_scalar(u: u32, out: &mut Vec<u8>)
    requires
        is_scalar(u),
    ensures
        final(out)@ == old(out)@ + encode_scalar(u),
{
    if u <= 0x7F {
        out.push((u & 0x7F) as u8);
    } else if u <= 0x7FF {
        out.push(0xC0 | ((u >> 6) & 0x1F) as u8);
        out.push(0x80 | (u & 0x3F) as u8);
    } else if u <= 0xFFFF {
        out.push(0xE0 | ((u >> 12) & 0x0F) as u8);
        out.push(0x80 | ((u >> 6) & 0x3F) as u8);
        out.push(0x80 | (u & 0x3F) as u8);
    } else {
        out.push(0xF0 | ((u >> 18) & 0x7) as u8);
        out.push(0x80 | ((u >> 12) & 0x3F) as u8);
        out.push(0x80 | ((u >> 6) & 0x3F) as u8);
        out.push(0x80 | (u & 0x3F) as u8);
    }
    assert(final(out)@ =~= old(out)@ + encode_scalar(u));
}

/// Decode the escape sequence whose backslash is at `p`, appending the bytes it stands for;
/// its length
fn read_escape(input: &[u8], p: usize, out: &mut Vec<u8>) -> (r: Result<usize, Error>)
    requires
        p < input@.len(),
    ensures
        r is Ok <==> escape_at(input@, p as int) is Ok,
        r matches Err(e) ==> escape_at(input@, p as int) == Err::<(Seq<u8>, nat), Error>(e),
        r matches Ok(n) ==> escape_at(input@, p as int) == Ok::<(Seq<u8>, nat), Error>(
            (final(out)@.subrange(old(out)@.len() as int, final(out)@.len() as int), n as nat),
        ),
        r matches Ok(n) ==> 0 < n && p + n <= input@.len(),
        final(out)@.len() >= old(out)@.len(),
        final(out)@.subrange(0, old(out)@.len() as int) == old(out)@,
{
    reveal(escape_at);
    if input.len() - p <= 1 {
        return Err(Error::Eof);
    }
    let c = input[p + 1];
    if c == 0x22u8 || c == 0x5cu8 || c == 0x2fu8 {
        out.push(c);
    } else if c == 0x62u8 {
        out.push(0x08u8);
    } else if c == 0x66u8 {
        out.push(0x0cu8);
    } else if c == 0x6eu8 {
        out.push(0x0au8);
    } else if c == 0x72u8 {
        out.push(0x0du8);
    } else if c == 0x74u8 {
        out.push(0x09u8);
    } else if c == 0x75u8 {
        let u = match read_hex4(input, p + 2) {
            Ok(u) => u,
            Err(e) => return Err(e),
        };
        if 0xD800u32 <= u && u <= 0xDBFFu32 {
            match read_low_surrogate(input, p + 6) {
                Some(lo) => {
                    let cp = 0x10000 + (u - 0xD800) * 0x400 + (lo - 0xDC00);
                    assert(cp == surrogate_pair(u, lo));
                    push_scalar(cp, out);
                    assert(out@.subrange(old(out)@.len() as int, out@.len() as int) =~= encode_scalar(cp));
                    assert(out@.subrange(0, old(out)@.len() as int) =~= old(out)@);
                    return Ok(12);
                },
                None => {
                    push_scalar(0xFFFD, out);
            assert(out@.subrange(old(out)@.len() as int, out@.len() as int) =~= encode_scalar(0xFFFDu32));
            assert(out@.subrange(0, old(out)@.len() as int) =~= old(out)@);
                    return Ok(6);
                },
            }
        } else if 0xDC00u32 <= u && u <= 0xDFFFu32 {
            push_scalar(0xFFFD, out);
            assert(out@.subrange(old(out)@.len() as int, out@.len() as int) =~= encode_scalar(0xFFFDu32));
            assert(out@.subrange(0, old(out)@.len() as int) =~= old(out)@);
            return Ok(6);
        } else {
            push_scalar(u, out);
            assert(out@.subrange(old(out)@.len() as int, out@.len() as int) =~= encode_scalar(u));
            assert(out@.subrange(0, old(out)@.len() as int) =~= old(out)@);
            return Ok(6);
        }
    } else {
        return Err(Error::unexpected(c));
    }
    assert(out@.subrange(old(out)@.len() as int, out@.len() as int) =~= seq![out@.last()]);
    assert(out@.subrange(0, old(out)@.len() as int) =~= old(out)@);
    Ok(2)
}

/// A string body at an escape sequence: the bytes it stands for, then the rest of the body
proof fn lemma_string_body_escape(input: Seq<u8>, i: int, bs: Seq<u8>, n: nat)
    requires
        0 <= i < input.len(),
        input[i] == 0x5cu8,
        escape_at(input, i) == Ok::<(Seq<u8>, nat), Error>((bs, n)),
    ensures
        string_body(input, i) == body_after(bs, n, string_body(input, i + n)),
{
    lemma_escape_len(input, i);
}

/// Read a string at `p`: the UTF-8 bytes it stands for and the end position
fn read_string_bytes(input: &[u8], p: usize) -> (r: Result<(Vec<u8>, usize), Error>)
    requires
        p <= input@.len(),
    ensures
        match spec_read_string(input@, p as int) {
            Ok((s, n)) => r matches Ok((b, e)) && b@ == s && e == p + n,
            Err(err) => r == Err::<(Vec<u8>, usize), Error>(err),
        },
        r matches Ok((_, e)) ==> e <= input@.len(),
{
    if p >= input.len() {
        return Err(Error::Eof);
    }
    if input[p] != 0x22u8 {
        return Err(Error::unexpected(input[p]));
    }
    let mut buf: Vec<u8> = Vec::new();
    let mut i = p + 1;
    assert(body_after(buf@, 0, string_body(input@, i as int)) =~= string_body(input@, i as int))
        by {
        match string_body(input@, i as int) {
            Ok((s, n)) => {
                assert(Seq::<u8>::empty() + s =~= s);
            },
            Err(_) => {},
        }
    }
    loop
        invariant
            p < i <= input@.len(),
            input@[p as int] == 0x22u8,
            string_body(input@, (p + 1) as int) == body_after(
                buf@,
                (i - (p + 1)) as nat,
                string_body(input@, i as int),
            ),
        decreases input@.len() - i,
    {
        if i >= input.len() {
            return Err(Error::Eof);
        }
        let b = input[i];
        if b == 0x5cu8 {
            let ghost old_buf = buf@;
            let n = match read_escape(input, i, &mut buf) {
                Ok(n) => n,
                Err(e) => return Err(e),
            };
            proof {
                let bs = buf@.subrange(old_buf.len() as int, buf@.len() as int);
                assert(buf@ =~= old_buf + bs);
                lemma_string_body_escape(input@, i as int, bs, n as nat);
                match string_body(input@, i + n) {
                    Ok((s, m)) => {
                        assert(old_buf + (bs + s) =~= buf@ + s);
                    },
                    Err(_) => {},
                }
            }
            i = i + n;
        } else if b == 0x22u8 {
            assert(buf@ + Seq::<u8>::empty() =~= buf@);
            return Ok((buf, i + 1));
        } else {
            proof {
                match string_body(input@, i + 1) {
                    Ok((s, n)) => {
                        assert(buf@ + (seq![b] + s) =~= buf@.push(b) + s);
                    },
                    Err(_) => {},
                }
            }
            buf.push(b);
            i = i + 1;
        }
    }
}

/// Read a string at `p`: the string and the end position
fn parse_string(input: &[u8], p: usize) -> (r: Result<(String, usize), Error>)
    requires
        p <= input@.len(),
    ensures
        match spec_read_string(input@, p as int) {
            Ok((s, n)) => r matches Ok((st, e)) && st@ == string_of_bytes(s) && e == p + n,
            Err(err) => r == Err::<(String, usize), Error>(err),
        },
        r matches Ok((_, e)) ==> e <= input@.len(),
{
    match read_string_bytes(input, p) {
        Ok((bytes, e)) => Ok((string_from_utf8_lossy(bytes.as_slice()), e)),
        Err(err) => Err(err),
    }
}

/// Read the text of a number at `p` and the end position
fn parse_digits(input: &[u8], p: usize) -> (r: Result<(Vec<u8>, usize), Error>)
    requires
        p <= input@.len(),
    ensures
        match spec_read_digits(input@, p as int) {
            Ok((t, n)) => r matches Ok((b, e)) && b@ == t && e == p + n,
            Err(err) => r == Err::<(Vec<u8>, usize), Error>(err),
        },
        r matches Ok((_, e)) ==> e <= input@.len(),
{
    if p >= input.len() {
        return Err(Error::Eof);
    }
    let b0 = input[p];
    if !(b0 == 0x2du8 || (0x30u8 <= b0 && b0 <= 0x39u8)) {
        return Err(Error::unexpected(b0));
    }
    let mut out: Vec<u8> = Vec::new();
    out.push(b0);
    let mut i = p + 1;
    proof {
        lemma_digits_run_bound(input@, (p + 1) as int);
    }
    while i < input.len() && ((0x30u8 <= input[i] && input[i] <= 0x39u8) || input[i] == 0x2eu8)
        invariant
            p < i <= input@.len(),
            digits_run(input@, (p + 1) as int) == (i - (p + 1)) + digits_run(input@, i as int),
            out@ == input@.subrange(p as int, i as int),
        decreases input.len() - i,
    {
        out.push(input[i]);
        assert(out@ =~= input@.subrange(p as int, i + 1));
        i = i + 1;
    }
    Ok((out, i))
}

/// Whether a number text is decimal syntax
fn is_decimal_syntax(t: &[u8]) -> (r: bool)
    ensures
        r == decimal_syntax(t@),
{
    let len = t.len();
    let start: usize = if len > 0 && (t[0] == 0x2du8 || t[0] == 0x2bu8) {
        1
    } else {
        0
    };
    let ghost body = sign_stripped(t@);
    assert(body =~= t@.skip(start as int));
    let mut i = start;
    let mut seen_dot = false;
    let mut dot_at: usize = 0;
    let mut has_digit = false;
    while i < len
        invariant
            start <= i <= len,
            len == t@.len(),
            body =~= t@.skip(start as int),
            body == sign_stripped(t@),
            forall|k: int| 0 <= k < i - start ==> is_number_tail(#[trigger] body[k]),
            forall|k: int| 0 <= k < i - start && #[trigger] body[k] == 0x2eu8 ==> seen_dot && k == dot_at,
            seen_dot ==> dot_at < i - start && body[dot_at as int] == 0x2eu8,
            has_digit <==> exists|k: int| 0 <= k < i - start && is_digit(#[trigger] body[k]),
        decreases len - i,
    {
        let b = t[i];
        assert(body[i - start] == b);
        if b == 0x2eu8 {
            if seen_dot {
                assert(body[dot_at as int] == 0x2eu8 && body[i - start] == 0x2eu8);
                assert(dot_at < i - start);
                return false;
            }
            seen_dot = true;
            dot_at = i - start;
        } else if 0x30u8 <= b && b <= 0x39u8 {
            has_digit = true;
        } else {
            assert(!is_number_tail(body[i - start]));
            return false;
        }
        i = i + 1;
    }
    assert(body.len() == i - start);
    has_digit
}

/// Characters of a string
pub fn string_chars(s: &str) -> (v: Vec<char>)
    ensures
        v@ == s@,
{
    let n = s.unicode_len();
    let mut v: Vec<char> = Vec::new();
    let mut i: usize = 0;
    while i < n
        invariant
            i <= n,
            n == s@.len(),
            v@ == s@.take(i as int),
        decreases n - i,
    {
        v.push(s.get_char(i));
        assert(v@ =~= s@.take(i + 1));
        i = i + 1;
    }
    assert(s@.take(n as int) =~= s@);
    v
}

/// Whether key `a` orders strictly before key `b`
pub fn chars_lt(a: &[char], b: &[char]) -> (r: bool)
    ensures
        r == key_lt(a@, b@),
{
    let mut i: usize = 0;
    assert(a@.skip(0) =~= a@);
    assert(b@.skip(0) =~= b@);
    while i < a.len() && i < b.len() && a[i] == b[i]
        invariant
            i <= a@.len(),
            i <= b@.len(),
            key_lt(a@, b@) == key_lt(a@.skip(i as int), b@.skip(i as int)),
        decreases a.len() - i,
    {
        assert(a@.skip(i as int).drop_first() =~= a@.skip(i + 1));
        assert(b@.skip(i as int).drop_first() =~= b@.skip(i + 1));
        i = i + 1;
    }
    if i == a.len() {
        i < b.len()
    } else if i == b.len() {
        false
    } else {
        assert(a@.skip(i as int)[0] == a@[i as int]);
        assert(b@.skip(i as int)[0] == b@[i as int]);
        a[i] < b[i]
    }
}

/// Whether two character sequences are equal
pub fn chars_eq(a: &[char], b: &[char]) -> (r: bool)
    ensures
        r == (a@ == b@),
{
    if a.len() != b.len() {
        return false;
    }
    let mut i: usize = 0;
    while i < a.len()
        invariant
            i <= a@.len(),
            a@.len() == b@.len(),
            a@.take(i as int) == b@.take(i as int),
        decreases a.len() - i,
    {
        if a[i] != b[i] {
            return false;
        }
        assert(a@.take(i + 1) =~= a@.take(i as int).push(a@[i as int]));
        assert(b@.take(i + 1) =~= b@.take(i as int).push(b@[i as int]));
        i = i + 1;
    }
    assert(a@.take(i as int) =~= a@);
    assert(b@.take(i as int) =~= b@);
    true
}

pub proof fn lemma_fields_view_push(fs: Seq<(String, Value)>, x: (String, Value))
    ensures
        fields_view(fs.push(x)) == fields_view(fs).push((x.0@, value_view(x.1))),
{
    assert(fs.push(x).drop_last() =~= fs);
}

pub proof fn lemma_values_view_push(vs: Seq<Value>, x: Value)
    ensures
        values_view(vs.push(x)) == values_view(vs).push(value_view(x)),
{
    assert(vs.push(x).drop_last() =~= vs);
}

/// Insert (or replace) an object field, keeping ascending key order
pub fn insert_field(fs: &mut Vec<(String, Value)>, k: String, v: Value)
    ensures
        fields_view(final(fs)@) == fields_insert(fields_view(old(fs)@), k@, value_view(v)),
    decreases old(fs)@.len(),
{
    let ghost old_fs = fs@;
    let len = fs.len();
    if len == 0 {
        proof {
            lemma_fields_view_push(fs@, (k, v));
        }
        fs.push((k, v));
        return;
    }
    let kc = string_chars(k.as_str());
    let last_chars = string_chars(fs[len - 1].0.as_str());
    proof {
        assert(fields_view(old_fs).last() == (old_fs.last().0@, value_view(old_fs.last().1)));
        assert(fields_view(old_fs).drop_last() == fields_view(old_fs.drop_last()));
    }
    if chars_lt(last_chars.as_slice(), kc.as_slice()) {
        proof {
            lemma_fields_view_push(fs@, (k, v));
        }
        fs.push((k, v));
    } else if chars_eq(last_chars.as_slice(), kc.as_slice()) {
        let _ = fs.pop();
        proof {
            assert(fs@ =~= old_fs.drop_last());
            lemma_fields_view_push(fs@, (k, v));
        }
        fs.push((k, v));
    } else {
        let last = fs.pop().unwrap();
        proof {
            assert(fs@ =~= old_fs.drop_last());
        }
        insert_field(fs, k, v);
        proof {
            lemma_fields_view_push(fs@, last);
        }
        fs.push(last);
    }
}

/// Expect the bytes of a word at `p`; the end position
fn parse_word(input: &[u8], p: usize, w: &[u8]) -> (r: Result<usize, Error>)
    requires
        p <= input@.len(),
    ensures
        match expect_word(input@, p as int, w@) {
            Ok(n) => r matches Ok(e) && e == p + n,
            Err(err) => r == Err::<usize, Error>(err),
        },
        r matches Ok(e) ==> e <= input@.len(),
{
    let mut k: usize = 0;
    let len = input.len();
    assert(w@.skip(0) =~= w@);
    while k < w.len()
        invariant
            k <= w@.len(),
            len == input@.len(),
            p + k <= input@.len(),
            expect_word(input@, p as int, w@) == match expect_word(
                input@,
                p + k,
                w@.skip(k as int),
            ) {
                Ok(n) => Ok::<nat, Error>((n + k) as nat),
                Err(e) => Err(e),
            },
        decreases w.len() - k,
    {
        if p + k >= len {
            return Err(Error::Eof);
        }
        if input[p + k] != w[k] {
            assert(w@.skip(k as int)[0] == w@[k as int]);
            return Err(Error::unexpected(input[p + k]));
        }
        assert(w@.skip(k as int).drop_first() =~= w@.skip(k + 1));
        k = k + 1;
    }
    assert(w@.skip(k as int) =~= Seq::<u8>::empty());
    Ok(p + k)
}

/// Read a number at `p`: its value and the end position
fn parse_number(input: &[u8], p: usize) -> (r: Result<(Value, usize), Error>)
    requires
        p <= input@.len(),
    ensures
        match spec_read_digits(input@, p as int) {
            Ok((t, n)) => match number_value(t) {
                Ok(v) => r matches Ok((x, e)) && x@ == v && e == p + n,
                Err(err) => r == Err::<(Value, usize), Error>(err),
            },
            Err(err) => r == Err::<(Value, usize), Error>(err),
        },
        r matches Ok((_, e)) ==> e <= input@.len(),
{
    match parse_digits(input, p) {
        Err(e) => Err(e),
        Ok((t, e)) => match parse_i64(t.as_slice()) {
            Some(n) => Ok((Value::Integer(n), e)),
            None => if is_decimal_syntax(t.as_slice()) {
                proof {
                    lemma_digits_run_bound(input@, (p + 1) as int);
                }
                assert forall|i: int| 0 <= i < t@.len() implies t@[i] < 128 by {
                    if i > 0 {
                        assert(is_number_tail(input@[p + i]));
                    }
                }
                Ok((Value::Decimal(ascii_to_string(t.as_slice())), e))
            } else {
                Err(Error::InvalidType)
            },
        },
    }
}

/// Read a boolean at `p`: its value and the end position
fn parse_boolean(input: &[u8], p: usize) -> (r: Result<(bool, usize), Error>)
    requires
        p <= input@.len(),
    ensures
        match spec_read_boolean(input@, p as int) {
            Ok((b, n)) => r matches Ok((x, e)) && x == b && e == p + n,
            Err(err) => r == Err::<(bool, usize), Error>(err),
        },
        r matches Ok((_, e)) ==> e <= input@.len(),
{
    if p >= input.len() {
        return Err(Error::Eof);
    }
    if input[p] == 0x66u8 {
        let w: [u8; 5] = [0x66u8, 0x61u8, 0x6cu8, 0x73u8, 0x65u8];
        assert(w@ =~= word_false());
        match parse_word(input, p, &w) {
            Ok(e) => Ok((false, e)),
            Err(err) => Err(err),
        }
    } else if input[p] == 0x74u8 {
        let w: [u8; 4] = [0x74u8, 0x72u8, 0x75u8, 0x65u8];
        assert(w@ =~= word_true());
        match parse_word(input, p, &w) {
            Ok(e) => Ok((true, e)),
            Err(err) => Err(err),
        }
    } else {
        Err(Error::unexpected(input[p]))
    }
}

/// Read `null` at `p`: the end position
fn parse_null(input: &[u8], p: usize) -> (r: Result<usize, Error>)
    requires
        p <= input@.len(),
    ensures
        match expect_word(input@, p as int, word_null()) {
            Ok(n) => r matches Ok(e) && e == p + n,
            Err(err) => r == Err::<usize, Error>(err),
        },
        r matches Ok(e) ==> e <= input@.len(),
{
    let w: [u8; 4] = [0x6eu8, 0x75u8, 0x6cu8, 0x6cu8];
    assert(w@ =~= word_null());
    parse_word(input, p, &w)
}

/// Read any value at `p`: the value and the end position
fn parse_any(input: &[u8], p: usize) -> (r: Result<(Value, usize), Error>)
    requires
        p <= input@.len(),
    ensures
        match spec_read_any(input@, p as int) {
            Ok((v, n)) => r matches Ok((x, e)) && x@ == v && e == p + n,
            Err(err) => r == Err::<(Value, usize), Error>(err),
        },
        r matches Ok((_, e)) ==> e <= input@.len(),
    decreases input@.len() - p, 0nat,
{
    if p >= input.len() {
        return Err(Error::Eof);
    }
    let b = input[p];
    if b == 0x7bu8 {
        let acc: Vec<(String, Value)> = Vec::new();
        assert(fields_view(acc@) =~= Seq::<(Seq<char>, JsonValue)>::empty());
        match parse_object_fields(input, p + 1, acc) {
            Ok((fs, e)) => Ok((Value::Object(fs), e)),
            Err(err) => Err(err),
        }
    } else if b == 0x5bu8 {
        let acc: Vec<Value> = Vec::new();
        assert(values_view(acc@) =~= Seq::<JsonValue>::empty());
        match parse_array_items(input, p + 1, acc) {
            Ok((vs, e)) => Ok((Value::Array(vs), e)),
            Err(err) => Err(err),
        }
    } else if b == 0x22u8 {
        match parse_string(input, p) {
            Ok((s, e)) => Ok((Value::String(s), e)),
            Err(err) => Err(err),
        }
    } else if b == 0x2du8 || (0x30u8 <= b && b <= 0x39u8) {
        parse_number(input, p)
    } else if b == 0x66u8 || b == 0x74u8 {
        match parse_boolean(input, p) {
            Ok((v, e)) => Ok((Value::Boolean(v), e)),
            Err(err) => Err(err),
        }
    } else if b == 0x6eu8 {
        match parse_null(input, p) {
            Ok(e) => Ok((Value::Null, e)),
            Err(err) => Err(err),
        }
    } else {
        Err(Error::unexpected(b))
    }
}

/// Read the remaining array elements at `p` into `acc`: the elements and the end position
fn parse_array_items(input: &[u8], p: usize, acc: Vec<Value>) -> (r: Result<
    (Vec<Value>, usize),
    Error,
>)
    requires
        p <= input@.len(),
    ensures
        match array_items(input@, p as int, values_view(acc@)) {
            Ok((vs, n)) => r matches Ok((x, e)) && values_view(x@) == vs && e == p + n,
            Err(err) => r matches Err(e) && e == err,
        },
        r matches Ok((_, e)) ==> e <= input@.len(),
    decreases input@.len() - p, 1nat,
{
    let mut acc = acc;
    let q = skip_ws(input, p);
    if q >= input.len() {
        return Err(Error::Eof);
    }
    if input[q] == 0x5du8 {
        return Ok((acc, q + 1));
    }
    match parse_any(input, q) {
        Err(err) => Err(err),
        Ok((v, e)) => {
            let r = skip_ws(input, e);
            if r >= input.len() {
                return Err(Error::Eof);
            }
            proof {
                lemma_values_view_push(acc@, v);
            }
            if input[r] == 0x2cu8 {
                acc.push(v);
                parse_array_items(input, r + 1, acc)
            } else if input[r] == 0x5du8 {
                acc.push(v);
                Ok((acc, r + 1))
            } else {
                Err(Error::unexpected(input[r]))
            }
        },
    }
}

/// Read the remaining object fields at `p` into `acc`: the fields and the end position
fn parse_object_fields(input: &[u8], p: usize, acc: Vec<(String, Value)>) -> (r: Result<
    (Vec<(String, Value)>, usize),
    Error,
>)
    requires
        p <= input@.len(),
    ensures
        match object_fields(input@, p as int, fields_view(acc@)) {
            Ok((fs, n)) => r matches Ok((x, e)) && fields_view(x@) == fs && e == p + n,
            Err(err) => r matches Err(e) && e == err,
        },
        r matches Ok((_, e)) ==> e <= input@.len(),
    decreases input@.len() - p, 1nat,
{
    let mut acc = acc;
    let q = skip_ws(input, p);
    if q >= input.len() {
        return Err(Error::Eof);
    }
    if input[q] == 0x7du8 {
        return Ok((acc, q + 1));
    }
    let (key, e1) = match parse_string(input, q) {
        Err(err) => return Err(err),
        Ok(x) => x,
    };
    let q2 = skip_ws(input, e1);
    if q2 >= input.len() {
        return Err(Error::Eof);
    }
    if input[q2] != 0x3au8 {
        return Err(Error::unexpected(input[q2]));
    }
    let q4 = skip_ws(input, q2 + 1);
    match parse_any(input, q4) {
        Err(err) => Err(err),
        Ok((v, e)) => {
            insert_field(&mut acc, key, v);
            let r = skip_ws(input, e);
            if r >= input.len() {
                return Err(Error::Eof);
            }
            if input[r] == 0x2cu8 {
                parse_object_fields(input, r + 1, acc)
            } else if input[r] == 0x7du8 {
                Ok((acc, r + 1))
            } else {
                Err(Error::unexpected(input[r]))
            }
        },
    }
}

// ---------------------------------------------------------------------------------------------
// The reader
// ---------------------------------------------------------------------------------------------

/// Result of reading an integer at `p`: the number text parsed as `i64::from_str` does
pub open spec fn spec_read_integer(input: Seq<u8>, p: int) -> Result<(i64, nat), Error> {
    match spec_read_digits(input, p) {
        Ok((t, n)) => match spec_parse_i64(t) {
            Some(v) => Ok((v, n)),
            None => Err(Error::InvalidType),
        },
        Err(e) => Err(e),
    }
}

/// Result of reading a decimal number at `p`: its text, if `f64::from_str` accepts it
pub open spec fn spec_read_decimal(input: Seq<u8>, p: int) -> Result<(Seq<char>, nat), Error> {
    match spec_read_digits(input, p) {
        Ok((t, n)) => if decimal_syntax(t) {
            Ok((ascii_chars(t), n))
        } else {
            Err(Error::InvalidType)
        },
        Err(e) => Err(e),
    }
}

/// JSON reader over a byte buffer.
///
/// The reader parses JSON from the buffer at its current position without building any
/// intermediate representation; every read advances the position past what was read.
#[derive(Debug)]
pub struct Reader {
    reader: Vec<u8>,
    pos: usize,
}

impl Reader {
    /// Bytes the reader reads from
    pub closed spec fn source(&self) -> Seq<u8> {
        self.reader@
    }

    /// Position of the next byte to read
    pub closed spec fn offset(&self) -> int {
        self.pos as int
    }

    /// Create JSON reader
    pub fn new(reader: Vec<u8>) -> (r: Self)
        ensures
            r.source() == reader@,
            r.offset() == 0,
    {
        Reader { reader, pos: 0 }
    }

    /// Returns a reference to the inner buffer wrapped by this reader
    pub fn get_ref(&self) -> (r: &Vec<u8>)
        ensures
            r@ == self.source(),
    {
        &self.reader
    }

    /// Returns a mutable reference to the inner buffer wrapped by this reader
    pub fn get_mut(&mut self) -> (r: &mut Vec<u8>)
        ensures
            r@ == old(self).source(),
            final(self).source() == final(r)@,
            final(self).offset() == old(self).offset(),
    {
        &mut self.reader
    }

    /// Consumes the reader, returning its inner buffer
    pub fn into_inner(self) -> (r: Vec<u8>)
        ensures
            r@ == self.source(),
    {
        self.reader
    }

    /// Current position, moved to the end of input where it lies beyond
    fn at(&self) -> (p: usize)
        ensures
            p <= self.source().len(),
            p == self.offset() || (p == self.source().len() && self.offset() > p),
    {
        if self.pos <= self.reader.len() {
            self.pos
        } else {
            self.reader.len()
        }
    }

    /// Read and parse any JSON value
    pub fn read_any(&mut self) -> (r: Result<Value, Error>)
        ensures
            final(self).source() == old(self).source(),
            match spec_read_any(old(self).source(), old(self).offset()) {
                Ok((v, n)) => r matches Ok(x) && x@ == v && final(self).offset() == old(
                    self,
                ).offset() + n,
                Err(e) => r == Err::<Value, Error>(e),
            },
            r matches Ok(x) ==> crate::json::value::well_formed(x@),
    {
        proof {
            crate::json::order::read_value_well_formed(self.reader@, self.pos as int);
        }
        let p = self.at();
        match parse_any(self.reader.as_slice(), p) {
            Ok((v, e)) => {
                self.pos = e;
                Ok(v)
            },
            Err(err) => Err(err),
        }
    }

    /// Read and parse a JSON object into its fields, ordered by key (a later field replaces an
    /// earlier one with the same key)
    pub fn read_object(&mut self) -> (r: Result<Vec<(String, Value)>, Error>)
        ensures
            final(self).source() == old(self).source(),
            match spec_read_object(old(self).source(), old(self).offset()) {
                Ok((fs, n)) => r matches Ok(x) && fields_view(x@) == fs && final(self).offset()
                    == old(self).offset() + n,
                Err(e) => r == Err::<Vec<(String, Value)>, Error>(e),
            },
            r matches Ok(x) ==> crate::json::value::keys_ascending(fields_view(x@)),
    {
        proof {
            crate::json::order::read_object_keys_ascending(self.reader@, self.pos as int);
        }
        let p = self.at();
        if p >= self.reader.len() {
            return Err(Error::Eof);
        }
        if self.reader[p] != 0x7bu8 {
            return Err(Error::unexpected(self.reader[p]));
        }
        let acc: Vec<(String, Value)> = Vec::new();
        assert(fields_view(acc@) =~= Seq::<(Seq<char>, JsonValue)>::empty());
        match parse_object_fields(self.reader.as_slice(), p + 1, acc) {
            Ok((fs, e)) => {
                self.pos = e;
                Ok(fs)
            },
            Err(err) => Err(err),
        }
    }

    /// Read and parse a JSON array into its elements
    pub fn read_array(&mut self) -> (r: Result<Vec<Value>, Error>)
        ensures
            final(self).source() == old(self).source(),
            match spec_read_array(old(self).source(), old(self).offset()) {
                Ok((vs, n)) => r matches Ok(x) && values_view(x@) == vs && final(self).offset()
                    == old(self).offset() + n,
                Err(e) => r == Err::<Vec<Value>, Error>(e),
            },
    {
        let p = self.at();
        if p >= self.reader.len() {
            return Err(Error::Eof);
        }
        if self.reader[p] != 0x5bu8 {
            return Err(Error::unexpected(self.reader[p]));
        }
        let acc: Vec<Value> = Vec::new();
        assert(values_view(acc@) =~= Seq::<JsonValue>::empty());
        match parse_array_items(self.reader.as_slice(), p + 1, acc) {
            Ok((vs, e)) => {
                self.pos = e;
                Ok(vs)
            },
            Err(err) => Err(err),
        }
    }

    /// Read and parse a JSON string
    pub fn read_string(&mut self) -> (r: Result<String, Error>)
        ensures
            final(self).source() == old(self).source(),
            match spec_read_string(old(self).source(), old(self).offset()) {
                Ok((s, n)) => r matches Ok(x) && x@ == string_of_bytes(s) && final(self).offset()
                    == old(self).offset() + n,
                Err(e) => r == Err::<String, Error>(e),
            },
    {
        let p = self.at();
        match parse_string(self.reader.as_slice(), p) {
            Ok((s, e)) => {
                self.pos = e;
                Ok(s)
            },
            Err(err) => Err(err),
        }
    }

    /// Read and parse a JSON number (either integer or decimal)
    pub fn read_number(&mut self) -> (r: Result<Value, Error>)
        ensures
            final(self).source() == old(self).source(),
            match spec_read_digits(old(self).source(), old(self).offset()) {
                Ok((t, n)) => match number_value(t) {
                    Ok(v) => r matches Ok(x) && x@ == v && final(self).offset() == old(
                        self,
                    ).offset() + n,
                    Err(e) => r == Err::<Value, Error>(e),
                },
                Err(e) => r == Err::<Value, Error>(e),
            },
    {
        let p = self.at();
        match parse_number(self.reader.as_slice(), p) {
            Ok((v, e)) => {
                self.pos = e;
                Ok(v)
            },
            Err(err) => Err(err),
        }
    }

    /// Read a JSON number (decimal); its text is returned as `f64::from_str` accepts it
    pub fn read_decimal(&mut self) -> (r: Result<String, Error>)
        ensures
            final(self).source() == old(self).source(),
            match spec_read_decimal(old(self).source(), old(self).offset()) {
                Ok((t, n)) => r matches Ok(x) && x@ == t && final(self).offset() == old(
                    self,
                ).offset() + n,
                Err(e) => r == Err::<String, Error>(e),
            },
    {
        let p = self.at();
        match parse_digits(self.reader.as_slice(), p) {
            Ok((t, e)) => {
                if is_decimal_syntax(t.as_slice()) {
                    proof {
                        lemma_digits_run_bound(self.reader@, (p + 1) as int);
                    }
                    assert forall|i: int| 0 <= i < t@.len() implies t@[i] < 128 by {
                        if i > 0 {
                            assert(is_number_tail(self.reader@[p + i]));
                        }
                    }
                    self.pos = e;
                    Ok(ascii_to_string(t.as_slice()))
                } else {
                    Err(Error::InvalidType)
                }
            },
            Err(err) => Err(err),
        }
    }

    /// Read and parse a JSON number (integer)
    pub fn read_integer(&mut self) -> (r: Result<i64, Error>)
        ensures
            final(self).source() == old(self).source(),
            match spec_read_integer(old(self).source(), old(self).offset()) {
                Ok((v, n)) => r == Ok::<i64, Error>(v) && final(self).offset() == old(
                    self,
                ).offset() + n,
                Err(e) => r == Err::<i64, Error>(e),
            },
    {
        let p = self.at();
        match parse_digits(self.reader.as_slice(), p) {
            Ok((t, e)) => match parse_i64(t.as_slice()) {
                Some(v) => {
                    self.pos = e;
                    Ok(v)
                },
                None => Err(Error::InvalidType),
            },
            Err(err) => Err(err),
        }
    }

    /// Read and parse a JSON boolean
    pub fn read_boolean(&mut self) -> (r: Result<bool, Error>)
        ensures
            final(self).source() == old(self).source(),
            match spec_read_boolean(old(self).source(), old(self).offset()) {
                Ok((b, n)) => r == Ok::<bool, Error>(b) && final(self).offset() == old(
                    self,
                ).offset() + n,
                Err(e) => r == Err::<bool, Error>(e),
            },
    {
        let p = self.at();
        match parse_boolean(self.reader.as_slice(), p) {
            Ok((b, e)) => {
                self.pos = e;
                Ok(b)
            },
            Err(err) => Err(err),
        }
    }

    /// Read and parse a JSON null
    pub fn read_null(&mut self) -> (r: Result<(), Error>)
        ensures
            final(self).source() == old(self).source(),
            match expect_word(old(self).source(), old(self).offset(), word_null()) {
                Ok(n) => r is Ok && final(self).offset() == old(self).offset() + n,
                Err(e) => r == Err::<(), Error>(e),
            },
    {
        let p = self.at();
        match parse_null(self.reader.as_slice(), p) {
            Ok(e) => {
                self.pos = e;
                Ok(())
            },
            Err(err) => Err(err),
        }
    }

    /// Read and discard any remaining data
    pub fn discard_to_end(&mut self) -> (r: Result<(), Error>)
        ensures
            r is Ok,
            final(self).source() == old(self).source(),
            final(self).offset() == old(self).source().len(),
    {
        self.pos = self.reader.len();
        Ok(())
    }
}

/// A JSON object at `p`: its fields in key order and the number of bytes consumed
pub open spec fn spec_read_object(input: Seq<u8>, p: int) -> Result<
    (Seq<(Seq<char>, JsonValue)>, nat),
    Error,
> {
    if p < 0 || p >= input.len() {
        Err(Error::Eof)
    } else if input[p] != 0x7bu8 {
        Err(spec_unexpected(input[p]))
    } else {
        match object_fields(input, p + 1, seq![]) {
            Ok((fs, n)) => Ok((fs, n + 1)),
            Err(e) => Err(e),
        }
    }
}

/// A JSON array at `p`: its elements and the number of bytes consumed
pub open spec fn spec_read_array(input: Seq<u8>, p: int) -> Result<(Seq<JsonValue>, nat), Error> {
    if p < 0 || p >= input.len() {
        Err(Error::Eof)
    } else if input[p] != 0x5bu8 {
        Err(spec_unexpected(input[p]))
    } else {
        match array_items(input, p + 1, seq![]) {
            Ok((vs, n)) => Ok((vs, n + 1)),
            Err(e) => Err(e),
        }
    }
}

} // verus!
