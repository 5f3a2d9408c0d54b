//! White space between the parts of JSON arrays and objects does not change what is read

use crate::json::error::Error;
use crate::json::reader::{array_items, object_fields, spec_read_any, spec_read_string, string_of_bytes, ws_len};
use crate::json::value::{fields_insert, JsonValue};
use crate::text::is_ascii_ws;
use vstd::prelude::*;

verus! {

/// A run of `w` white space bytes at `x`, followed by a byte that is not white space, is
/// skipped as a whole
proof fn lemma_ws_run(input: Seq<u8>, x: int, w: nat)
    requires
        0 <= x,
        x + w < input.len(),
        forall|i: int| x <= i < x + w ==> is_ascii_ws(#[trigger] input[i]),
        !is_ascii_ws(input[x + w]),
    ensures
        ws_len(input, x) == w,
    decreases w,
{
    if w > 0 {
        lemma_ws_run(input, x + 1, (w - 1) as nat);
    }
}

/// Inside an object, white space after a field's value is skipped: after a key, a colon and a
/// value, any run of ASCII white space may stand before the `}` that ends the object, or before
/// the `,` after which the object goes on, and the field is read all the same
pub proof fn law_object_whitespace_after_value(
    input: Seq<u8>,
    p: int,
    acc: Seq<(Seq<char>, JsonValue)>,
    k: Seq<u8>,
    kl: nat,
    v: JsonValue,
    vl: nat,
    w: nat,
)
    requires
        0 <= p < input.len(),
        input[p] == 0x22u8,
        spec_read_string(input, p) == Ok::<(Seq<u8>, nat), Error>((k, kl)),
        p + kl + 1 < input.len(),
        input[p + kl] == 0x3au8,
        !is_ascii_ws(input[p + kl + 1]),
        spec_read_any(input, p + kl + 1) == Ok::<(JsonValue, nat), Error>((v, vl)),
        p + kl + 1 + vl + w < input.len(),
        forall|i: int|
            p + kl + 1 + vl <= i < p + kl + 1 + vl + w ==> is_ascii_ws(#[trigger] input[i]),
        input[p + kl + 1 + vl + w] == 0x7du8 || input[p + kl + 1 + vl + w] == 0x2cu8,
    ensures
        ({
            let e = p + kl + 1 + vl + w;
            let acc2 = fields_insert(acc, string_of_bytes(k), v);
            &&& input[e] == 0x7du8 ==> object_fields(input, p, acc) == Ok::<
                (Seq<(Seq<char>, JsonValue)>, nat),
                Error,
            >((acc2, (e + 1 - p) as nat))
            &&& input[e] == 0x2cu8 ==> object_fields(input, p, acc) == match object_fields(
                input,
                e + 1,
                acc2,
            ) {
                Ok((fs, m)) => Ok((fs, (e + 1 - p + m) as nat)),
                Err(err) => Err(err),
            }
        }),
{
    let q2 = p + kl;
    let q4 = q2 + 1;
    let e = q4 + vl + w;
    assert(ws_len(input, p) == 0);
    assert(ws_len(input, q2) == 0);
    assert(ws_len(input, q4) == 0);
    lemma_ws_run(input, q4 + vl, w);
}

/// Inside an array, white space after an element is skipped: any run of ASCII white space may
/// stand before the `]` that ends the array, or before the `,` after which the array goes on,
/// and the element is read all the same
pub proof fn law_array_whitespace_after_element(
    input: Seq<u8>,
    p: int,
    acc: Seq<JsonValue>,
    v: JsonValue,
    vl: nat,
    w: nat,
)
    requires
        0 <= p < input.len(),
        !is_ascii_ws(input[p]),
        input[p] != 0x5du8,
        spec_read_any(input, p) == Ok::<(JsonValue, nat), Error>((v, vl)),
        p + vl + w < input.len(),
        forall|i: int| p + vl <= i < p + vl + w ==> is_ascii_ws(#[trigger] input[i]),
        input[p + vl + w] == 0x5du8 || input[p + vl + w] == 0x2cu8,
    ensures
        ({
            let e = p + vl + w;
            &&& input[e] == 0x5du8 ==> array_items(input, p, acc) == Ok::<
                (Seq<JsonValue>, nat),
                Error,
            >((acc.push(v), (e + 1 - p) as nat))
            &&& input[e] == 0x2cu8 ==> array_items(input, p, acc) == match array_items(
                input,
                e + 1,
                acc.push(v),
            ) {
                Ok((vs, m)) => Ok((vs, (e + 1 - p + m) as nat)),
                Err(err) => Err(err),
            }
        }),
{
    assert(ws_len(input, p) == 0);
    lemma_ws_run(input, p + vl, w);
}

} // verus!
