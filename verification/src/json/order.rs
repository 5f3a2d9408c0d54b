//! Key order of JSON objects: the order of keys is a strict total order, inserting a field keeps
//! the fields in ascending key order, and so an object read from JSON has its fields in ascending
//! key order, each key once (like a `BTreeMap`)

use crate::json::reader::{
    array_items, object_fields, spec_read_any, spec_read_object, spec_read_string,
    string_of_bytes, ws_len,
};
use crate::json::value::{
    field_values_well_formed, fields_insert, key_lt, keys_ascending, well_formed, JsonValue,
};
use vstd::prelude::*;

verus! {

/// No key is before itself
proof fn lemma_key_lt_irreflexive(a: Seq<char>)
    ensures
        !key_lt(a, a),
    decreases a.len(),
{
    if a.len() > 0 {
        lemma_key_lt_irreflexive(a.drop_first());
    }
}

/// Key order is transitive
proof fn lemma_key_lt_transitive(a: Seq<char>, b: Seq<char>, c: Seq<char>)
    requires
        key_lt(a, b),
        key_lt(b, c),
    ensures
        key_lt(a, c),
    decreases a.len(),
{
    if a.len() > 0 && b.len() > 0 && c.len() > 0 && a[0] == b[0] && b[0] == c[0] {
        lemma_key_lt_transitive(a.drop_first(), b.drop_first(), c.drop_first());
    }
}

/// Of two different keys, one is before the other
proof fn lemma_key_lt_total(a: Seq<char>, b: Seq<char>)
    requires
        a != b,
    ensures
        key_lt(a, b) || key_lt(b, a),
    decreases a.len(),
{
    if a.len() == 0 {
        if b.len() == 0 {
            assert(a =~= b);
        }
    } else if b.len() > 0 && a[0] == b[0] {
        if a.drop_first() == b.drop_first() {
            assert(a.drop_first().len() == b.drop_first().len());
            assert(a.len() == b.len());
            assert(a =~= b) by {
                assert forall|i: int| 0 <= i < a.len() implies a[i] == b[i] by {
                    if i > 0 {
                        assert(a[i] == a.drop_first()[i - 1]);
                        assert(b[i] == b.drop_first()[i - 1]);
                    }
                }
            }
        } else {
            lemma_key_lt_total(a.drop_first(), b.drop_first());
        }
    }
}

/// Every key of the fields is before `x`
pub open spec fn all_before(fs: Seq<(Seq<char>, JsonValue)>, x: Seq<char>) -> bool {
    forall|i: int| 0 <= i < fs.len() ==> key_lt(#[trigger] fs[i].0, x)
}

/// Inserting a field keeps the fields in ascending key order, and adds no key but its own
proof fn lemma_fields_insert_ascending(fs: Seq<(Seq<char>, JsonValue)>, k: Seq<char>, v: JsonValue)
    requires
        keys_ascending(fs),
    ensures
        keys_ascending(fields_insert(fs, k, v)),
        forall|x: Seq<char>|
            all_before(fs, x) && key_lt(k, x) ==> #[trigger] all_before(fields_insert(fs, k, v), x),
    decreases fs.len(),
{
    let r = fields_insert(fs, k, v);
    if fs.len() == 0 {
    } else {
        let n = fs.len() - 1;
        let last = fs.last();
        if key_lt(last.0, k) {
            assert forall|i: int, j: int| 0 <= i < j < r.len() implies key_lt(
                #[trigger] r[i].0,
                #[trigger] r[j].0,
            ) by {
                if j == n + 1 {
                    if i < n {
                        assert(key_lt(fs[i].0, fs[n].0));
                        lemma_key_lt_transitive(fs[i].0, last.0, k);
                    }
                } else {
                    assert(key_lt(fs[i].0, fs[j].0));
                }
            }
        } else if last.0 == k {
            assert forall|i: int, j: int| 0 <= i < j < r.len() implies key_lt(
                #[trigger] r[i].0,
                #[trigger] r[j].0,
            ) by {
                assert(r[i].0 == fs[i].0);
                assert(r[j].0 == fs[j].0);
                assert(key_lt(fs[i].0, fs[j].0));
            }
            assert forall|x: Seq<char>| all_before(fs, x) && key_lt(k, x) implies #[trigger] all_before(
                r,
                x,
            ) by {
                assert forall|i: int| 0 <= i < r.len() implies key_lt(#[trigger] r[i].0, x) by {
                    assert(r[i].0 == fs[i].0);
                    assert(key_lt(fs[i].0, x));
                }
            }
        } else {
            lemma_key_lt_total(last.0, k);
            let init = fs.drop_last();
            assert(keys_ascending(init)) by {
                assert forall|i: int, j: int| 0 <= i < j < init.len() implies key_lt(
                    #[trigger] init[i].0,
                    #[trigger] init[j].0,
                ) by {
                    assert(key_lt(fs[i].0, fs[j].0));
                }
            }
            lemma_fields_insert_ascending(init, k, v);
            let r0 = fields_insert(init, k, v);
            assert(all_before(init, last.0)) by {
                assert forall|i: int| 0 <= i < init.len() implies key_lt(#[trigger] init[i].0, last.0) by {
                    assert(key_lt(fs[i].0, fs[n].0));
                }
            }
            assert(all_before(r0, last.0));
            assert forall|i: int, j: int| 0 <= i < j < r.len() implies key_lt(
                #[trigger] r[i].0,
                #[trigger] r[j].0,
            ) by {
                if j == r0.len() {
                    assert(r[i].0 == r0[i].0);
                    assert(key_lt(r0[i].0, last.0));
                } else {
                    assert(r[i].0 == r0[i].0);
                    assert(r[j].0 == r0[j].0);
                }
            }
            assert forall|x: Seq<char>| all_before(fs, x) && key_lt(k, x) implies #[trigger] all_before(
                r,
                x,
            ) by {
                assert(all_before(init, x)) by {
                    assert forall|i: int| 0 <= i < init.len() implies key_lt(#[trigger] init[i].0, x) by {
                        assert(key_lt(fs[i].0, x));
                    }
                }
                assert(all_before(r0, x));
                assert(key_lt(fs[n].0, x));
                assert forall|i: int| 0 <= i < r.len() implies key_lt(#[trigger] r[i].0, x) by {
                    if i < r0.len() {
                        assert(r[i].0 == r0[i].0);
                    }
                }
            }
        }
    }
}

/// The fields read from the rest of an object come in ascending key order, given that those
/// read so far do
proof fn lemma_object_fields_ascending(input: Seq<u8>, p: int, acc: Seq<(Seq<char>, JsonValue)>)
    requires
        keys_ascending(acc),
    ensures
        object_fields(input, p, acc) matches Ok((fs, _)) ==> keys_ascending(fs),
    decreases input.len() - p,
{
    let q = p + ws_len(input, p);
    if p < 0 || q >= input.len() {
    } else if input[q] == 0x7du8 {
    } else {
        match spec_read_string(input, q) {
            Err(_) => {},
            Ok((kb, n1)) => {
                let q2 = q + n1 + ws_len(input, q + n1);
                if q2 < input.len() && input[q2] == 0x3au8 {
                    let q4 = q2 + 1 + ws_len(input, q2 + 1);
                    if q4 <= input.len() {
                        match crate::json::reader::spec_read_any(input, q4) {
                            Err(_) => {},
                            Ok((v, n)) => {
                                let acc2 = fields_insert(acc, string_of_bytes(kb), v);
                                lemma_fields_insert_ascending(acc, string_of_bytes(kb), v);
                                let r = q4 + n + ws_len(input, q4 + n);
                                if r < input.len() && input[r] == 0x2cu8 {
                                    lemma_object_fields_ascending(input, r + 1, acc2);
                                }
                            },
                        }
                    }
                }
            },
        }
    }
}

/// The fields of an object read from JSON come in strictly ascending key order, so no key
/// occurs twice (a later field with the same key replaced the earlier one)
pub proof fn read_object_keys_ascending(input: Seq<u8>, p: int)
    ensures
        spec_read_object(input, p) matches Ok((fs, _)) ==> keys_ascending(fs),
{
    if 0 <= p < input.len() && input[p] == 0x7bu8 {
        lemma_object_fields_ascending(input, p + 1, seq![]);
    }
}

/// Inserting a field whose value is well formed keeps the field values well formed
proof fn lemma_fields_insert_well_formed(fs: Seq<(Seq<char>, JsonValue)>, k: Seq<char>, v: JsonValue)
    requires
        field_values_well_formed(fs),
        well_formed(v),
    ensures
        field_values_well_formed(fields_insert(fs, k, v)),
    decreases fs.len(),
{
    if fs.len() > 0 {
        let init = fs.drop_last();
        assert(field_values_well_formed(init)) by {
            assert forall|i: int| 0 <= i < init.len() implies well_formed(#[trigger] init[i].1) by {
                assert(init[i] == fs[i]);
            }
        }
        if !key_lt(fs.last().0, k) && fs.last().0 != k {
            lemma_fields_insert_well_formed(init, k, v);
        }
        let r = fields_insert(fs, k, v);
        assert forall|i: int| 0 <= i < r.len() implies well_formed(#[trigger] r[i].1) by {
            if i == r.len() - 1 {
                assert(r[i] == (k, v) || r[i] == fs.last());
                assert(fs.last() == fs[fs.len() - 1]);
            } else if key_lt(fs.last().0, k) {
                assert(r[i] == fs[i]);
            } else if fs.last().0 == k {
                assert(r[i] == init[i]);
            } else {
                assert(r[i] == fields_insert(init, k, v)[i]);
            }
        }
    }
}

/// Every value read from JSON is well formed: its objects, at every depth, have their fields in
/// strictly ascending key order
pub proof fn read_value_well_formed(input: Seq<u8>, p: int)
    ensures
        spec_read_any(input, p) matches Ok((v, _)) ==> well_formed(v),
    decreases input.len() - p, 0nat,
{
    if 0 <= p < input.len() {
        let b = input[p];
        if b == 0x7bu8 {
            lemma_object_fields_well_formed(input, p + 1, seq![]);
        } else if b == 0x5bu8 {
            lemma_array_items_well_formed(input, p + 1, seq![]);
        }
    }
}

/// The elements read for the rest of an array are well formed, given that those so far are
proof fn lemma_array_items_well_formed(input: Seq<u8>, p: int, acc: Seq<JsonValue>)
    requires
        forall|i: int| 0 <= i < acc.len() ==> well_formed(#[trigger] acc[i]),
    ensures
        array_items(input, p, acc) matches Ok((vs, _)) ==> forall|i: int|
            0 <= i < vs.len() ==> well_formed(#[trigger] vs[i]),
    decreases input.len() - p, 1nat,
{
    let q = p + ws_len(input, p);
    if p < 0 || q >= input.len() {
    } else if input[q] == 0x5du8 {
    } else {
        read_value_well_formed(input, q);
        match spec_read_any(input, q) {
            Err(_) => {},
            Ok((v, n)) => {
                let acc2 = acc.push(v);
                assert forall|i: int| 0 <= i < acc2.len() implies well_formed(#[trigger] acc2[i]) by {
                    if i < acc.len() {
                        assert(acc2[i] == acc[i]);
                    }
                }
                let r = q + n + ws_len(input, q + n);
                if r < input.len() && input[r] == 0x2cu8 {
                    lemma_array_items_well_formed(input, r + 1, acc2);
                }
            },
        }
    }
}

/// The fields read for the rest of an object have well-formed values in ascending key order,
/// given that those so far do
proof fn lemma_object_fields_well_formed(
    input: Seq<u8>,
    p: int,
    acc: Seq<(Seq<char>, JsonValue)>,
)
    requires
        keys_ascending(acc),
        field_values_well_formed(acc),
    ensures
        object_fields(input, p, acc) matches Ok((fs, _)) ==> keys_ascending(fs)
            && field_values_well_formed(fs),
    decreases input.len() - p, 1nat,
{
    lemma_object_fields_ascending(input, p, acc);
    let q = p + ws_len(input, p);
    if p < 0 || q >= input.len() {
    } else if input[q] == 0x7du8 {
    } else {
        match spec_read_string(input, q) {
            Err(_) => {},
            Ok((kb, n1)) => {
                let q2 = q + n1 + ws_len(input, q + n1);
                if q2 < input.len() && input[q2] == 0x3au8 {
                    let q4 = q2 + 1 + ws_len(input, q2 + 1);
                    if q4 <= input.len() {
                        read_value_well_formed(input, q4);
                        match spec_read_any(input, q4) {
                            Err(_) => {},
                            Ok((v, n)) => {
                                let acc2 = fields_insert(acc, string_of_bytes(kb), v);
                                lemma_fields_insert_ascending(acc, string_of_bytes(kb), v);
                                lemma_fields_insert_well_formed(acc, string_of_bytes(kb), v);
                                let r = q4 + n + ws_len(input, q4 + n);
                                if r < input.len() && input[r] == 0x2cu8 {
                                    lemma_object_fields_well_formed(input, r + 1, acc2);
                                }
                            },
                        }
                    }
                }
            },
        }
    }
}

} // verus!
