//! Hex text decoding with `const_hex`

use crate::text::{hex_digit_lower, hex_lower, lemma_hex_lower_index};
use vstd::prelude::*;

verus! {

/// Value of an ASCII hex digit (either case), or -1 for any other byte
pub open spec fn hex_value(b: u8) -> int {
    if 0x30 <= b <= 0x39 {
        b - 0x30
    } else if 0x61 <= b <= 0x66 {
        b - 0x61 + 10
    } else if 0x41 <= b <= 0x46 {
        b - 0x41 + 10
    } else {
        -1
    }
}

/// All bytes are hex digits
pub open spec fn all_hex(s: Seq<u8>) -> bool {
    forall|i: int| 0 <= i < s.len() ==> hex_value(#[trigger] s[i]) >= 0
}

/// Bytes encoded by pairs of hex digits, most significant digit first
pub open spec fn hex_decoded(s: Seq<u8>) -> Seq<u8> {
    Seq::new(s.len() / 2, |i: int| (hex_value(s[2 * i]) * 16 + hex_value(s[2 * i + 1])) as u8)
}

/// Hex text without a leading `0x` or `0X`
pub open spec fn strip_hex_prefix(s: Seq<u8>) -> Seq<u8> {
    if s.len() >= 2 && s[0] == 0x30u8 && (s[1] == 0x78u8 || s[1] == 0x58u8) {
        s.skip(2)
    } else {
        s
    }
}

/// Lower case hex text decodes back to its bytes
pub proof fn lemma_hex_lower_decodes(b: Seq<u8>)
    ensures
        hex_lower(b).len() == 2 * b.len(),
        all_hex(hex_lower(b)),
        hex_decoded(hex_lower(b)) == b,
        forall|i: int| 0 <= i < hex_lower(b).len() ==> 0x30 <= #[trigger] hex_lower(b)[i] <= 0x39
            || 0x61 <= hex_lower(b)[i] <= 0x66,
{
    let h = hex_lower(b);
    lemma_hex_lower_index(b);
    assert forall|v: u8| v < 16 implies hex_value(#[trigger] hex_digit_lower(v)) == v by {}
    assert forall|i: int| 0 <= i < h.len() implies hex_value(#[trigger] h[i]) >= 0 && (0x30 <= h[i]
        <= 0x39 || 0x61 <= h[i] <= 0x66) by {
        let k = i / 2;
        if i % 2 == 0 {
            assert(i == 2 * k);
            assert(h[2 * k] == hex_digit_lower(b[k] / 16));
        } else {
            assert(i == 2 * k + 1);
            assert(h[2 * k + 1] == hex_digit_lower(b[k] % 16));
        }
    }
    assert(hex_decoded(h) =~= b) by {
        assert forall|i: int| 0 <= i < b.len() implies #[trigger] hex_decoded(h)[i] == b[i] by {
            assert(h[2 * i] == hex_digit_lower(b[i] / 16));
            assert(h[2 * i + 1] == hex_digit_lower(b[i] % 16));
        }
    }
}

/// What `const_hex::decode_to_array` makes of hex text for an array of `n` bytes: an error for
/// an odd length, else (after an optional `0x` prefix) the decoded bytes if exactly `2 * n` hex
/// digits of either case remain
pub open spec fn spec_decode_to_array(s: Seq<u8>, n: nat) -> Option<Seq<u8>> {
    let t = strip_hex_prefix(s);
    if s.len() % 2 != 0 || t.len() != 2 * n || !all_hex(t) {
        None
    } else {
        Some(hex_decoded(t))
    }
}

/// `const_hex::decode_to_array::<_, N>`. Stated as its source shows: the decoded bytes as
/// `spec_decode_to_array` says, or no array where it fails; which error it gives is not kept.
#[verifier::external_body]
pub(crate) fn hex_to_array<const N: usize>(hex: &[u8]) -> (r: Option<[u8; N]>)
    ensures
        match spec_decode_to_array(hex@, N as nat) {
            Some(b) => r matches Some(a) && a@ == b,
            None => r is None,
        },
{
    const_hex::decode_to_array::<&[u8], N>(hex).ok()
}

} // verus!
