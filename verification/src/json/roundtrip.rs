//! Reading back what the writer wrote gives the value that was written

use crate::json::reader::{
    array_items, decimal_syntax, digits_run, expect_word, is_number_tail, number_value,
    object_fields, sign_stripped, spec_read_any, spec_read_digits, spec_read_string, string_body,
    string_of_bytes, word_false, word_null, word_true, ws_len, escape_at, hex_value, hex4, body_after,
    lemma_escape_len,
};
use crate::json::value::{fields_insert, key_lt, keys_ascending, JsonValue};
use crate::json::writer::{
    colon_text, comma_text, elems_text, escape_byte, escaped, escaped_bytes, fields_text, string_text,
    value_text,
};
use crate::text::{
    ascii_chars, decimal_digits, hex_digit_lower, decimal_text, is_ascii_ws, is_digit, lemma_decimal_digits_props,
    lemma_parse_decimal_text, spec_parse_i64,
};
use vstd::prelude::*;
use vstd::utf8::{
    encode_scalar, decode_utf8, encode_utf8, encode_utf8_decode_utf8, encode_utf8_valid_utf8, is_ascii_chars,
    is_ascii_chars_encode_utf8, valid_utf8,
};

verus! {

/// Bytes of an ASCII character sequence
pub open spec fn ascii_bytes(s: Seq<char>) -> Seq<u8> {
    s.map_values(|c: char| (c as u32) as u8)
}

/// Text of a decimal number that reads back as a decimal: it starts with a minus sign or a
/// digit, is decimal syntax, and is not an integer in range of `i64`
pub open spec fn decimal_number_text(b: Seq<u8>) -> bool {
    &&& b.len() > 0
    &&& (b[0] == 0x2du8 || is_digit(b[0]))
    &&& decimal_syntax(b)
    &&& spec_parse_i64(b) is None
}

/// Values that the writer writes in a form that reads back to the same value: decimals whose
/// text reads back as a decimal, and object keys in strictly ascending order (as the library's
/// objects keep them); strings and keys of any text
pub open spec fn readable(v: JsonValue) -> bool
    decreases v,
{
    match v {
        JsonValue::Null => true,
        JsonValue::Boolean(_) => true,
        JsonValue::Integer(_) => true,
        JsonValue::Decimal(t) => is_ascii_chars(t) && decimal_number_text(ascii_bytes(t)),
        JsonValue::String(_) => true,
        JsonValue::Array(vs) => forall|i: int| 0 <= i < vs.len() ==> readable(#[trigger] vs[i]),
        JsonValue::Object(fs) => {
            &&& keys_ascending(fs)
            &&& forall|i: int| 0 <= i < fs.len() ==> readable(#[trigger] fs[i].1)
        },
    }
}

/// Position `q` ends a value: end of input or a byte that cannot continue a number
pub open spec fn terminated(input: Seq<u8>, q: int) -> bool {
    q >= input.len() || !is_number_tail(input[q])
}

/// `input` holds `t` at position `p`
pub open spec fn holds_at(input: Seq<u8>, p: int, t: Seq<u8>) -> bool {
    0 <= p && p + t.len() <= input.len() && input.subrange(p, p + t.len()) == t
}

proof fn lemma_holds_at_split(input: Seq<u8>, p: int, a: Seq<u8>, b: Seq<u8>)
    requires
        holds_at(input, p, a + b),
    ensures
        holds_at(input, p, a),
        holds_at(input, p + a.len(), b),
{
    let whole = input.subrange(p, p + (a + b).len());
    assert(whole == a + b);
    assert(input.subrange(p, p + a.len()) =~= whole.subrange(0, a.len() as int));
    assert(whole.subrange(0, a.len() as int) =~= a);
    assert(input.subrange(p + a.len(), p + a.len() + b.len()) =~= whole.subrange(
        a.len() as int,
        whole.len() as int,
    ));
    assert(whole.subrange(a.len() as int, whole.len() as int) =~= b);
}

proof fn lemma_holds_at_index(input: Seq<u8>, p: int, t: Seq<u8>, i: int)
    requires
        holds_at(input, p, t),
        0 <= i < t.len(),
    ensures
        input[p + i] == t[i],
{
    assert(input.subrange(p, p + t.len())[i] == input[p + i]);
}

/// Value of a lower case hex digit
proof fn lemma_hex_digit_value(v: u8)
    requires
        v < 16,
    ensures
        hex_value(hex_digit_lower(v)) == Some(v as u32),
{
}

/// The escape written for a byte decodes to that byte
proof fn lemma_escape_byte(input: Seq<u8>, p: int, b: u8)
    requires
        escape_byte(b).len() > 1,
        holds_at(input, p, escape_byte(b)),
    ensures
        input[p] == 0x5cu8,
        escape_at(input, p) == Ok::<(Seq<u8>, nat), crate::json::error::Error>(
            (seq![b], escape_byte(b).len()),
        ),
{
    reveal(escape_at);
    let e = escape_byte(b);
    lemma_holds_at_index(input, p, e, 0);
    lemma_holds_at_index(input, p, e, 1);
    if e.len() == 6 {
        lemma_holds_at_index(input, p, e, 2);
        lemma_holds_at_index(input, p, e, 3);
        lemma_holds_at_index(input, p, e, 4);
        lemma_holds_at_index(input, p, e, 5);
        lemma_hex_digit_value(b / 16);
        lemma_hex_digit_value(b % 16);
        let u = (0u32 * 4096 + 0u32 * 256 + ((b / 16) as u32) * 16 + ((b % 16) as u32)) as u32;
        assert(hex4(input, p + 2) == Ok::<u32, crate::json::error::Error>(u));
        assert(u == b as u32);
        assert(b < 0x20u8 ==> ((b as u32) & 0x7f) as u8 == b) by (bit_vector);
        assert(encode_scalar(u) =~= seq![b]);
    }
}

/// Reading the body of a written string gives back the bytes that were escaped
proof fn lemma_string_body(input: Seq<u8>, p: int, bs: Seq<u8>)
    requires
        holds_at(input, p, escaped_bytes(bs) + seq![0x22u8]),
    ensures
        string_body(input, p) == Ok::<(Seq<u8>, nat), crate::json::error::Error>(
            (bs, (escaped_bytes(bs).len() + 1) as nat),
        ),
    decreases bs.len(),
{
    if bs.len() == 0 {
        assert(escaped_bytes(bs) + seq![0x22u8] =~= seq![0x22u8]);
        lemma_holds_at_index(input, p, seq![0x22u8], 0);
        assert(bs =~= Seq::<u8>::empty());
    } else {
        let b = bs[0];
        let rest = bs.drop_first();
        let e = escape_byte(b);
        assert(escaped_bytes(bs) + seq![0x22u8] =~= e + (escaped_bytes(rest) + seq![0x22u8]));
        lemma_holds_at_split(input, p, e, escaped_bytes(rest) + seq![0x22u8]);
        lemma_string_body(input, p + e.len(), rest);
        assert(bs =~= seq![b] + rest);
        assert(escaped_bytes(bs).len() == e.len() + escaped_bytes(rest).len());
        if e.len() > 1 {
            lemma_escape_byte(input, p, b);
            lemma_escape_len(input, p);
            assert(string_body(input, p) == body_after(seq![b], e.len(), string_body(input, p + e.len())));
        } else {
            lemma_holds_at_index(input, p, e, 0);
            assert(input[p] == b);
            assert(b != 0x5cu8 && b != 0x22u8);
        }
    }
}

/// The UTF-8 encoding of a string is valid and decodes to the string
proof fn lemma_utf8_roundtrip(s: Seq<char>)
    ensures
        string_of_bytes(encode_utf8(s)) == s,
{
    encode_utf8_valid_utf8(s);
    encode_utf8_decode_utf8(s);
}

proof fn lemma_ascii_roundtrip(s: Seq<char>)
    requires
        is_ascii_chars(s),
    ensures
        ascii_bytes(s) == encode_utf8(s),
        string_of_bytes(ascii_bytes(s)) == s,
{
    is_ascii_chars_encode_utf8(s);
    assert forall|i: int| 0 <= i < s.len() implies #[trigger] ascii_bytes(s)[i] == encode_utf8(
        s,
    )[i] by {
        assert(s[i] as u8 == encode_utf8(s)[i]);
        assert((s[i] as u32) as u8 == s[i] as u8);
    }
    assert(ascii_bytes(s) =~= encode_utf8(s));
    encode_utf8_valid_utf8(s);
    encode_utf8_decode_utf8(s);
}

proof fn lemma_expect_word(input: Seq<u8>, p: int, w: Seq<u8>)
    requires
        holds_at(input, p, w),
    ensures
        expect_word(input, p, w) == Ok::<nat, crate::json::error::Error>(w.len()),
    decreases w.len(),
{
    if w.len() > 0 {
        lemma_holds_at_index(input, p, w, 0);
        assert(w =~= seq![w[0]] + w.drop_first());
        lemma_holds_at_split(input, p, seq![w[0]], w.drop_first());
        lemma_expect_word(input, p + 1, w.drop_first());
    }
}

proof fn lemma_digits_run(input: Seq<u8>, a: int, b: int)
    requires
        0 <= a <= b <= input.len(),
        forall|i: int| a <= i < b ==> is_number_tail(#[trigger] input[i]),
        terminated(input, b),
    ensures
        digits_run(input, a) == b - a,
    decreases b - a,
{
    if a < b {
        lemma_digits_run(input, a + 1, b);
    }
}

/// Reading a number text followed by a terminator gives that text
proof fn lemma_read_number_text(input: Seq<u8>, p: int, t: Seq<u8>)
    requires
        holds_at(input, p, t),
        t.len() > 0,
        t[0] == 0x2du8 || is_digit(t[0]),
        forall|i: int| 1 <= i < t.len() ==> is_number_tail(#[trigger] t[i]),
        terminated(input, p + t.len()),
    ensures
        spec_read_digits(input, p) == Ok::<(Seq<u8>, nat), crate::json::error::Error>(
            (t, t.len()),
        ),
{
    lemma_holds_at_index(input, p, t, 0);
    assert forall|i: int| p + 1 <= i < p + t.len() implies is_number_tail(#[trigger] input[i]) by {
        lemma_holds_at_index(input, p, t, i - p);
    }
    lemma_digits_run(input, p + 1, p + t.len());
}

proof fn lemma_decimal_text_shape(n: i64)
    ensures
        decimal_text(n as int).len() > 0,
        decimal_text(n as int)[0] == 0x2du8 || is_digit(decimal_text(n as int)[0]),
        forall|i: int|
            1 <= i < decimal_text(n as int).len() ==> is_digit(#[trigger] decimal_text(n as int)[i]),
{
    if n < 0 {
        let m = (-(n as int)) as nat;
        lemma_decimal_digits_props(m);
        let t = decimal_text(n as int);
        assert forall|i: int| 1 <= i < t.len() implies is_digit(#[trigger] t[i]) by {
            assert(t[i] == decimal_digits(m)[i - 1]);
        }
    } else {
        lemma_decimal_digits_props(n as nat);
    }
}

proof fn lemma_ascii_chars_bytes(t: Seq<char>)
    requires
        is_ascii_chars(t),
    ensures
        ascii_chars(ascii_bytes(t)) == t,
{
    assert forall|i: int| 0 <= i < t.len() implies #[trigger] ascii_chars(ascii_bytes(t))[i]
        == t[i] by {
        let c = t[i];
        let u = c as u32;
        assert(u < 128);
        assert(((u as u8) as char) == c);
    }
    assert(ascii_chars(ascii_bytes(t)) =~= t);
}

/// The first byte of a written value is not whitespace
proof fn lemma_value_text_first(v: JsonValue)
    requires
        readable(v),
    ensures
        value_text(v).len() > 0,
        !is_ascii_ws(value_text(v)[0]),
{
    match v {
        JsonValue::Integer(n) => {
            lemma_decimal_text_shape(n);
            let t = decimal_text(n as int);
            assert(value_text(v) == t);
            assert(t[0] == 0x2du8 || is_digit(t[0]));
        },
        JsonValue::Decimal(t) => {
            lemma_ascii_roundtrip(t);
        },
        JsonValue::Array(vs) => {},
        JsonValue::Object(fs) => {},
        JsonValue::String(s) => {},
        _ => {},
    }
}

/// Whitespace before a text that does not start with whitespace
proof fn lemma_ws_lead(input: Seq<u8>, p: int, lead: Seq<u8>, rest: Seq<u8>)
    requires
        lead == Seq::<u8>::empty() || lead == seq![0x20u8],
        rest.len() > 0,
        !is_ascii_ws(rest[0]),
        holds_at(input, p, lead + rest),
    ensures
        ws_len(input, p) == lead.len(),
        input[p + lead.len()] == rest[0],
{
    lemma_holds_at_split(input, p, lead, rest);
    lemma_holds_at_index(input, p + lead.len(), rest, 0);
    if lead.len() == 1 {
        lemma_holds_at_index(input, p, lead, 0);
        assert(ws_len(input, p + 1) == 0);
    }
}

/// Reading a written value at `p`, followed by a terminator, gives the value and consumes its
/// text
proof fn lemma_read_value_at(input: Seq<u8>, p: int, v: JsonValue)
    requires
        readable(v),
        holds_at(input, p, value_text(v)),
        terminated(input, p + value_text(v).len()),
    ensures
        spec_read_any(input, p) == Ok::<(JsonValue, nat), crate::json::error::Error>(
            (v, value_text(v).len()),
        ),
    decreases v,
{
    let text = value_text(v);
    lemma_value_text_first(v);
    lemma_holds_at_index(input, p, text, 0);
    match v {
        JsonValue::Null => {
            lemma_expect_word(input, p, word_null());
        },
        JsonValue::Boolean(b) => {
            if b {
                lemma_expect_word(input, p, word_true());
            } else {
                lemma_expect_word(input, p, word_false());
            }
        },
        JsonValue::Integer(n) => {
            lemma_decimal_text_shape(n);
            lemma_read_number_text(input, p, text);
            lemma_parse_decimal_text(n);
        },
        JsonValue::Decimal(t) => {
            lemma_ascii_roundtrip(t);
            let b = ascii_bytes(t);
            assert(text == b);
            assert forall|i: int| 1 <= i < b.len() implies is_number_tail(#[trigger] b[i]) by {
                let body = sign_stripped(b);
                if b[0] == 0x2du8 {
                    assert(body[i - 1] == b[i]);
                } else {
                    assert(body == b);
                }
            }
            lemma_read_number_text(input, p, b);
            lemma_ascii_chars_bytes(t);
            assert(number_value(b) == Ok::<JsonValue, crate::json::error::Error>(
                JsonValue::Decimal(t),
            ));
        },
        JsonValue::String(s) => {
            lemma_utf8_roundtrip(s);
            assert(text =~= seq![0x22u8] + (escaped(s) + seq![0x22u8]));
            lemma_holds_at_split(input, p, seq![0x22u8], escaped(s) + seq![0x22u8]);
            lemma_string_body(input, p + 1, encode_utf8(s));
        },
        JsonValue::Array(vs) => {
            assert(text =~= seq![0x5bu8] + (Seq::<u8>::empty() + elems_text(vs) + seq![0x5du8]));
            lemma_holds_at_split(
                input,
                p,
                seq![0x5bu8],
                Seq::<u8>::empty() + elems_text(vs) + seq![0x5du8],
            );
            lemma_read_items(input, p + 1, seq![], Seq::<u8>::empty(), vs);
            assert(Seq::<JsonValue>::empty() + vs =~= vs);
        },
        JsonValue::Object(fs) => {
            assert(text =~= seq![0x7bu8] + (Seq::<u8>::empty() + fields_text(fs) + seq![0x7du8]));
            lemma_holds_at_split(
                input,
                p,
                seq![0x7bu8],
                Seq::<u8>::empty() + fields_text(fs) + seq![0x7du8],
            );
            assert(Seq::<(Seq<char>, JsonValue)>::empty() + fs =~= fs);
            lemma_read_fields(input, p + 1, seq![], Seq::<u8>::empty(), fs);
        },
    }
}

/// Reading the remaining elements of a written array (after `[`, or after `,` with its space)
proof fn lemma_read_items(
    input: Seq<u8>,
    p: int,
    acc: Seq<JsonValue>,
    lead: Seq<u8>,
    vs: Seq<JsonValue>,
)
    requires
        lead == Seq::<u8>::empty() || lead == seq![0x20u8],
        forall|i: int| 0 <= i < vs.len() ==> readable(#[trigger] vs[i]),
        holds_at(input, p, lead + elems_text(vs) + seq![0x5du8]),
    ensures
        array_items(input, p, acc) == Ok::<(Seq<JsonValue>, nat), crate::json::error::Error>(
            (acc + vs, (lead.len() + elems_text(vs).len() + 1) as nat),
        ),
    decreases vs,
{
    if vs.len() == 0 {
        assert(lead + elems_text(vs) + seq![0x5du8] =~= lead + seq![0x5du8]);
        lemma_ws_lead(input, p, lead, seq![0x5du8]);
        assert(acc + vs =~= acc);
    } else {
        let v0 = vs[0];
        assert(readable(v0));
        lemma_value_text_first(v0);
        let t0 = value_text(v0);
        let after: Seq<u8> = if vs.len() == 1 {
            seq![0x5du8]
        } else {
            comma_text() + elems_text(vs.drop_first()) + seq![0x5du8]
        };
        assert(lead + elems_text(vs) + seq![0x5du8] =~= lead + (t0 + after));
        lemma_ws_lead(input, p, lead, t0 + after);
        lemma_holds_at_split(input, p, lead, t0 + after);
        let q = p + lead.len();
        lemma_holds_at_split(input, q, t0, after);
        lemma_holds_at_index(input, q + t0.len(), after, 0);
        lemma_read_value_at(input, q, v0);
        let r = q + t0.len();
        assert(ws_len(input, r) == 0);
        if vs.len() == 1 {
            assert(acc.push(v0) =~= acc + vs);
        } else {
            let tail = vs.drop_first();
            assert forall|i: int| 0 <= i < tail.len() implies readable(#[trigger] tail[i]) by {
                assert(tail[i] == vs[i + 1]);
            }
            assert(after =~= seq![0x2cu8] + (seq![0x20u8] + elems_text(tail) + seq![0x5du8]));
            lemma_holds_at_split(
                input,
                r,
                seq![0x2cu8],
                seq![0x20u8] + elems_text(tail) + seq![0x5du8],
            );
            lemma_read_items(input, r + 1, acc.push(v0), seq![0x20u8], tail);
            assert(acc.push(v0) + tail =~= acc + vs);
        }
    }
}

/// Reading a written key followed by `: ` and a text that does not start with whitespace
proof fn lemma_read_key(input: Seq<u8>, q: int, k: Seq<char>, rest: Seq<u8>)
    requires
        rest.len() > 0,
        !is_ascii_ws(rest[0]),
        holds_at(input, q, string_text(k) + (seq![0x3au8] + (seq![0x20u8] + rest))),
    ensures
        spec_read_string(input, q) == Ok::<(Seq<u8>, nat), crate::json::error::Error>(
            (encode_utf8(k), string_text(k).len()),
        ),
        string_of_bytes(encode_utf8(k)) == k,
        ws_len(input, q + string_text(k).len()) == 0,
        input[q + string_text(k).len()] == 0x3au8,
        ws_len(input, q + string_text(k).len() + 1) == 1,
        holds_at(input, q + string_text(k).len() + 2, rest),
{
    let tk = string_text(k);
    lemma_holds_at_split(input, q, tk, seq![0x3au8] + (seq![0x20u8] + rest));
    assert(tk =~= seq![0x22u8] + (escaped(k) + seq![0x22u8]));
    lemma_holds_at_split(input, q, seq![0x22u8], escaped(k) + seq![0x22u8]);
    lemma_holds_at_index(input, q, seq![0x22u8], 0);
    lemma_string_body(input, q + 1, encode_utf8(k));
    lemma_utf8_roundtrip(k);
    let q2 = q + tk.len();
    lemma_ws_lead(input, q2, Seq::<u8>::empty(), seq![0x3au8] + (seq![0x20u8] + rest));
    lemma_holds_at_split(input, q2, seq![0x3au8], seq![0x20u8] + rest);
    lemma_ws_lead(input, q2 + 1, seq![0x20u8], rest);
    lemma_holds_at_split(input, q2 + 1, seq![0x20u8], rest);
}

/// Reading the remaining fields of a written object (after `{`, or after `,` with its space)
#[verifier::rlimit(50)]
proof fn lemma_read_fields(
    input: Seq<u8>,
    p: int,
    acc: Seq<(Seq<char>, JsonValue)>,
    lead: Seq<u8>,
    fs: Seq<(Seq<char>, JsonValue)>,
)
    requires
        lead == Seq::<u8>::empty() || lead == seq![0x20u8],
        keys_ascending(acc + fs),
        forall|i: int| 0 <= i < fs.len() ==> readable(#[trigger] fs[i].1),
        holds_at(input, p, lead + fields_text(fs) + seq![0x7du8]),
    ensures
        object_fields(input, p, acc) == Ok::<
            (Seq<(Seq<char>, JsonValue)>, nat),
            crate::json::error::Error,
        >((acc + fs, (lead.len() + fields_text(fs).len() + 1) as nat)),
    decreases fs,
{
    if fs.len() == 0 {
        assert(lead + fields_text(fs) + seq![0x7du8] =~= lead + seq![0x7du8]);
        lemma_ws_lead(input, p, lead, seq![0x7du8]);
        assert(acc + fs =~= acc);
    } else {
        let k = fs[0].0;
        let v = fs[0].1;
        assert(readable(v));
        lemma_value_text_first(v);
        let tk = string_text(k);
        let tv = value_text(v);
        let after: Seq<u8> = if fs.len() == 1 {
            seq![0x7du8]
        } else {
            comma_text() + fields_text(fs.drop_first()) + seq![0x7du8]
        };
        assert(lead + fields_text(fs) + seq![0x7du8] =~= lead + (tk + (seq![0x3au8] + (seq![
            0x20u8,
        ] + (tv + after)))));
        lemma_ws_lead(input, p, lead, tk + (seq![0x3au8] + (seq![0x20u8] + (tv + after))));
        lemma_holds_at_split(input, p, lead, tk + (seq![0x3au8] + (seq![0x20u8] + (tv + after))));
        let q = p + lead.len();
        let q2 = q + tk.len();
        lemma_read_key(input, q, k, tv + after);
        // the value
        let q4 = q2 + 2;
        lemma_holds_at_split(input, q4, tv, after);
        lemma_holds_at_index(input, q4 + tv.len(), after, 0);
        lemma_read_value_at(input, q4, v);
        let r = q4 + tv.len();
        assert(ws_len(input, r) == 0);
        // the field goes last
        assert(fields_insert(acc, k, v) == acc.push((k, v))) by {
            if acc.len() > 0 {
                let all = acc + fs;
                assert(all[acc.len() - 1] == acc.last());
                assert(all[acc.len() as int] == fs[0]);
                assert(key_lt(all[acc.len() - 1].0, all[acc.len() as int].0));
            }
        }
        if fs.len() == 1 {
            assert(acc.push((k, v)) =~= acc + fs);
        } else {
            let tail = fs.drop_first();
            assert forall|i: int| 0 <= i < tail.len() implies readable(#[trigger] tail[i].1) by {
                assert(tail[i] == fs[i + 1]);
            }
            assert(acc.push((k, v)) + tail =~= acc + fs);
            assert(after =~= seq![0x2cu8] + (seq![0x20u8] + fields_text(tail) + seq![0x7du8]));
            lemma_holds_at_split(
                input,
                r,
                seq![0x2cu8],
                seq![0x20u8] + fields_text(tail) + seq![0x7du8],
            );
            lemma_read_fields(input, r + 1, acc.push((k, v)), seq![0x20u8], tail);
        }
    }
}

/// Reading what the writer wrote for a value gives back that value and consumes exactly what
/// was written, whatever follows it, as long as what follows cannot continue a number. This holds
/// for every value whose object keys ascend and whose decimals are written with a text that does
/// not read as an integer; strings and keys may hold any text.
pub proof fn read_of_written_value(v: JsonValue, rest: Seq<u8>)
    requires
        readable(v),
        rest.len() == 0 || !is_number_tail(rest[0]),
    ensures
        spec_read_any(value_text(v) + rest, 0) == Ok::<
            (JsonValue, nat),
            crate::json::error::Error,
        >((v, value_text(v).len())),
{
    let input = value_text(v) + rest;
    assert(input.subrange(0, value_text(v).len() as int) =~= value_text(v));
    if rest.len() > 0 {
        assert(input[value_text(v).len() as int] == rest[0]);
    }
    lemma_read_value_at(input, 0, v);
}

} // verus!
