//! Byte and character level text helpers: ASCII classes, decimal integer parsing and formatting,
//! lower case hex encoding and string building.

use vstd::prelude::*;

verus! {

/// ASCII whitespace as `u8::is_ascii_whitespace` defines it (space, tab, line feed, form feed,
/// carriage return).
pub open spec fn is_ascii_ws(b: u8) -> bool {
    b == 0x20u8 || b == 0x09u8 || b == 0x0au8 || b == 0x0cu8 || b == 0x0du8
}

/// ASCII decimal digit
pub open spec fn is_digit(b: u8) -> bool {
    0x30u8 <= b <= 0x39u8
}

/// All bytes are decimal digits
pub open spec fn all_digits(s: Seq<u8>) -> bool {
    forall|i: int| 0 <= i < s.len() ==> is_digit(#[trigger] s[i])
}

/// Value of a sequence of decimal digits (most significant first)
pub open spec fn digits_value(s: Seq<u8>) -> nat
    decreases s.len(),
{
    if s.len() == 0 {
        0
    } else {
        digits_value(s.drop_last()) * 10 + (s.last() - 0x30u8) as nat
    }
}

/// Result of `i64::from_str` on the given bytes: an optional sign (`+` or `-`) followed by at
/// least one decimal digit, with a value in range of `i64`.
pub open spec fn spec_parse_i64(s: Seq<u8>) -> Option<i64> {
    let neg = s.len() > 0 && s[0] == 0x2du8;
    let ds = if s.len() > 0 && (s[0] == 0x2du8 || s[0] == 0x2bu8) {
        s.skip(1)
    } else {
        s
    };
    if ds.len() == 0 || !all_digits(ds) {
        None
    } else {
        let v: int = if neg {
            -(digits_value(ds) as int)
        } else {
            digits_value(ds) as int
        };
        if i64::MIN <= v <= i64::MAX {
            Some(v as i64)
        } else {
            None
        }
    }
}

/// Reading integers: a single digit is its value, a digit appended to a number multiplies it by
/// ten and adds the digit, a leading `-` negates and a leading `+` keeps the number, and text with
/// anything but digits after the sign is no number
pub proof fn law_parse_integer(s: Seq<u8>, d: u8)
    requires
        0x30u8 <= d <= 0x39u8,
        s.len() > 0,
        forall|i: int| 0 <= i < s.len() ==> 0x30u8 <= #[trigger] s[i] <= 0x39u8,
    ensures
        spec_parse_i64(seq![d]) == Some((d - 0x30u8) as i64),
        spec_parse_i64(s) matches Some(v) ==> 0 <= v && (v * 10 + (d - 0x30u8) <= i64::MAX
            ==> spec_parse_i64(s.push(d)) == Some((v * 10 + (d - 0x30u8)) as i64)),
        spec_parse_i64(s) matches Some(v) ==> spec_parse_i64(seq![0x2du8] + s) == Some(-v as i64)
            && spec_parse_i64(seq![0x2bu8] + s) == Some(v),
        forall|i: int, b: u8|
            0 <= i <= s.len() && !(0x30u8 <= b <= 0x39u8) ==> spec_parse_i64(
                #[trigger] s.take(i).push(b) + s.skip(i),
            ) is None || (i == 0 && (b == 0x2du8 || b == 0x2bu8)),
{
    let t = s.push(d);
    assert(t.drop_last() =~= s);
    assert(seq![d].drop_last() =~= Seq::<u8>::empty());
    assert(digits_value(Seq::<u8>::empty()) == 0);
    assert(seq![d].last() == d);
    assert(digits_value(seq![d]) == digits_value(seq![d].drop_last()) * 10 + (d - 0x30u8) as nat);
    assert(all_digits(seq![d]));
    assert(!(d == 0x2du8 || d == 0x2bu8));
    assert((seq![0x2du8] + s).skip(1) =~= s);
    assert((seq![0x2bu8] + s).skip(1) =~= s);
    assert forall|i: int, b: u8|
        0 <= i <= s.len() && !(0x30u8 <= b <= 0x39u8) implies spec_parse_i64(
        #[trigger] s.take(i).push(b) + s.skip(i),
    ) is None || (i == 0 && (b == 0x2du8 || b == 0x2bu8)) by {
        let u = s.take(i).push(b) + s.skip(i);
        assert(u[i] == b);
        if i > 0 {
            assert(u[0] == s[0]);
            assert(u.skip(0) =~= u);
        } else if !(b == 0x2du8 || b == 0x2bu8) {
            assert(u[0] == b);
        }
    }
}

/// Decimal digits of a natural number, without leading zeros ("0" for zero)
pub open spec fn decimal_digits(n: nat) -> Seq<u8>
    decreases n,
{
    if n < 10 {
        seq![(0x30 + n) as u8]
    } else {
        decimal_digits(n / 10).push((0x30 + n % 10) as u8)
    }
}

/// Decimal text of a signed integer, as written by `i64::to_string`
pub open spec fn decimal_text(n: int) -> Seq<u8> {
    if n < 0 {
        seq![0x2du8] + decimal_digits((-n) as nat)
    } else {
        decimal_digits(n as nat)
    }
}

/// Lower case hex digit of a value below 16
pub open spec fn hex_digit_lower(v: u8) -> u8 {
    if v < 10 {
        (0x30 + v) as u8
    } else {
        (0x61 + v - 10) as u8
    }
}

/// Two lower case hex digits per byte, as `{:02x}` writes them
pub open spec fn hex_lower(bytes: Seq<u8>) -> Seq<u8>
    decreases bytes.len(),
{
    if bytes.len() == 0 {
        seq![]
    } else {
        hex_lower(bytes.drop_last()) + seq![
            hex_digit_lower(bytes.last() / 16),
            hex_digit_lower(bytes.last() % 16),
        ]
    }
}

/// Characters of an ASCII byte sequence
pub open spec fn ascii_chars(bytes: Seq<u8>) -> Seq<char> {
    bytes.map_values(|b: u8| b as char)
}

proof fn lemma_digits_value_take(s: Seq<u8>, k: int)
    requires
        0 <= k <= s.len(),
    ensures
        digits_value(s.take(k)) <= digits_value(s),
    decreases s.len() - k,
{
    if k < s.len() {
        lemma_digits_value_take(s, k + 1);
        assert(s.take(k + 1).drop_last() =~= s.take(k));
    } else {
        assert(s.take(k) =~= s);
    }
}

pub proof fn lemma_decimal_digits_props(n: nat)
    ensures
        decimal_digits(n).len() >= 1,
        all_digits(decimal_digits(n)),
        digits_value(decimal_digits(n)) == n,
        decimal_digits(n).len() <= 20 || n >= 10,
    decreases n,
{
    if n >= 10 {
        lemma_decimal_digits_props(n / 10);
        let d = decimal_digits(n);
        assert((n / 10) * 10 + n % 10 == n) by (nonlinear_arith);
        assert(d.last() == (0x30 + n % 10) as u8);
        assert(digits_value(d) == digits_value(d.drop_last()) * 10 + (n % 10));
        assert(d.drop_last() =~= decimal_digits(n / 10));
        assert forall|i: int| 0 <= i < d.len() implies is_digit(#[trigger] d[i]) by {
            if i < d.len() - 1 {
                assert(d[i] == decimal_digits(n / 10)[i]);
            }
        }
    } else {
        let d = decimal_digits(n);
        assert(d.drop_last() =~= Seq::<u8>::empty());
        assert(d.last() == (0x30 + n) as u8);
        assert(digits_value(d) == digits_value(d.drop_last()) * 10 + n);
    }
}

/// Decimal text written for an integer parses back to the same integer.
pub proof fn lemma_parse_decimal_text(n: i64)
    ensures
        spec_parse_i64(decimal_text(n as int)) == Some(n),
{
    if n < 0 {
        let m = (-(n as int)) as nat;
        lemma_decimal_digits_props(m);
        let t = decimal_text(n as int);
        assert(t.skip(1) =~= decimal_digits(m));
    } else {
        lemma_decimal_digits_props(n as nat);
        let d = decimal_digits(n as nat);
        assert(is_digit(d[0]));
    }
}

/// Parse a signed decimal integer like `i64::from_str`
pub fn parse_i64(s: &[u8]) -> (r: Option<i64>)
    ensures
        r == spec_parse_i64(s@),
{
    let len = s.len();
    let mut i: usize = 0;
    let mut neg = false;
    if len > 0 && (s[0] == 0x2du8 || s[0] == 0x2bu8) {
        neg = s[0] == 0x2du8;
        i = 1;
    }
    let ghost ds = if s@.len() > 0 && (s@[0] == 0x2du8 || s@[0] == 0x2bu8) {
        s@.skip(1)
    } else {
        s@
    };
    let start = i;
    assert(ds =~= s@.skip(start as int));
    if start == len {
        return None;
    }
    let mut mag: u64 = 0;
    let mut overflow = false;
    while i < len
        invariant
            start <= i <= len,
            len == s@.len(),
            ds =~= s@.skip(start as int),
            ds == (if s@.len() > 0 && (s@[0] == 0x2du8 || s@[0] == 0x2bu8) {
                s@.skip(1)
            } else {
                s@
            }),
            neg == (s@.len() > 0 && s@[0] == 0x2du8),
            all_digits(ds.take(i - start)),
            !overflow ==> mag as nat == digits_value(ds.take(i - start)),
            overflow ==> digits_value(ds.take(i - start)) > u64::MAX,
        decreases len - i,
    {
        let b = s[i];
        if b < 0x30u8 || b > 0x39u8 {
            assert(ds[i - start] == s@[i as int]);
            assert(!is_digit(ds[i - start]));
            return None;
        }
        let ghost prev = ds.take(i - start);
        assert(ds.take(i + 1 - start).drop_last() =~= prev);
        assert(ds.take(i + 1 - start) =~= prev.push(b));
        if !overflow {
            let d = (b - 0x30u8) as u64;
            match mag.checked_mul(10) {
                Some(m10) => match m10.checked_add(d) {
                    Some(v) => {
                        mag = v;
                    },
                    None => {
                        overflow = true;
                    },
                },
                None => {
                    overflow = true;
                    assert(digits_value(ds.take(i + 1 - start)) >= digits_value(prev) * 10);
                },
            }
        } else {
            assert(digits_value(ds.take(i + 1 - start)) >= digits_value(prev));
        }
        i = i + 1;
    }
    assert(ds.take(len - start) =~= ds);
    if overflow {
        return None;
    }
    if neg {
        if mag <= 9223372036854775808u64 {
            if mag == 9223372036854775808u64 {
                Some(i64::MIN)
            } else {
                Some(-(mag as i64))
            }
        } else {
            None
        }
    } else {
        if mag <= 9223372036854775807u64 {
            Some(mag as i64)
        } else {
            None
        }
    }
}

fn push_decimal_digits(n: u64, out: &mut Vec<u8>)
    ensures
        final(out)@ == old(out)@ + decimal_digits(n as nat),
    decreases n,
{
    if n >= 10 {
        push_decimal_digits(n / 10, out);
        out.push(0x30u8 + (n % 10) as u8);
    } else {
        out.push(0x30u8 + n as u8);
        assert(old(out)@ + decimal_digits(n as nat) =~= old(out)@.push((0x30 + n) as u8));
    }
}

/// Append the decimal text of an integer (like `i64::to_string`) to the given bytes
pub fn push_decimal_i64(n: i64, out: &mut Vec<u8>)
    ensures
        final(out)@ == old(out)@ + decimal_text(n as int),
{
    if n < 0 {
        out.push(0x2du8);
        let m: u64 = if n == i64::MIN {
            9223372036854775808u64
        } else {
            (-n) as u64
        };
        push_decimal_digits(m, out);
        assert(old(out)@ + decimal_text(n as int) =~= old(out)@.push(0x2du8) + decimal_digits(
            m as nat,
        ));
    } else {
        push_decimal_digits(n as u64, out);
    }
}

/// Append a natural number's decimal digits to the given bytes
pub fn push_decimal_u64(n: u64, out: &mut Vec<u8>)
    ensures
        final(out)@ == old(out)@ + decimal_digits(n as nat),
{
    push_decimal_digits(n, out);
}

/// Lower case hex digit of a value below 16
pub fn hex_digit(v: u8) -> (r: u8)
    requires
        v < 16,
    ensures
        r == hex_digit_lower(v),
{
    if v < 10 {
        0x30u8 + v
    } else {
        0x61u8 + v - 10
    }
}

/// Append two lower case hex digits per byte
pub fn push_hex_lower(bytes: &[u8], out: &mut Vec<u8>)
    ensures
        final(out)@ == old(out)@ + hex_lower(bytes@),
{
    let mut i: usize = 0;
    while i < bytes.len()
        invariant
            i <= bytes@.len(),
            out@ == old(out)@ + hex_lower(bytes@.take(i as int)),
        decreases bytes.len() - i,
    {
        let b = bytes[i];
        out.push(hex_digit(b / 16));
        out.push(hex_digit(b % 16));
        assert(bytes@.take(i + 1).drop_last() =~= bytes@.take(i as int));
        assert(out@ =~= old(out)@ + hex_lower(bytes@.take(i + 1)));
        i = i + 1;
    }
    assert(bytes@.take(i as int) =~= bytes@);
}

/// Append a character to a string (`String::push`)
#[verifier::external_body]
pub(crate) fn string_push(s: &mut String, c: char)
    ensures
        final(s)@ == old(s)@.push(c),
{
    s.push(c);
}

/// String of the characters of an ASCII byte sequence
pub fn ascii_to_string(bytes: &[u8]) -> (s: String)
    requires
        forall|i: int| 0 <= i < bytes@.len() ==> bytes@[i] < 128,
    ensures
        s@ == ascii_chars(bytes@),
{
    let mut s = String::new();
    let mut i: usize = 0;
    while i < bytes.len()
        invariant
            i <= bytes@.len(),
            forall|k: int| 0 <= k < bytes@.len() ==> bytes@[k] < 128,
            s@ == ascii_chars(bytes@.take(i as int)),
        decreases bytes.len() - i,
    {
        string_push(&mut s, bytes[i] as char);
        assert(ascii_chars(bytes@.take(i + 1)) =~= ascii_chars(bytes@.take(i as int)).push(
            bytes@[i as int] as char,
        ));
        i = i + 1;
    }
    assert(bytes@.take(i as int) =~= bytes@);
    s
}

/// Hex text has two digits per byte, all ASCII
pub proof fn lemma_hex_lower_ascii(bytes: Seq<u8>)
    ensures
        hex_lower(bytes).len() == 2 * bytes.len(),
        forall|i: int| 0 <= i < hex_lower(bytes).len() ==> #[trigger] hex_lower(bytes)[i] < 128,
    decreases bytes.len(),
{
    if bytes.len() > 0 {
        lemma_hex_lower_ascii(bytes.drop_last());
        let h = hex_lower(bytes);
        let p = hex_lower(bytes.drop_last());
        assert forall|i: int| 0 <= i < h.len() implies #[trigger] h[i] < 128 by {
            if i < p.len() {
                assert(h[i] == p[i]);
            }
        }
    }
}

/// The two hex digits of each byte
pub proof fn lemma_hex_lower_index(bytes: Seq<u8>)
    ensures
        hex_lower(bytes).len() == 2 * bytes.len(),
        forall|i: int|
            0 <= i < bytes.len() ==> hex_lower(bytes)[2 * i] == hex_digit_lower(
                #[trigger] bytes[i] / 16,
            ) && hex_lower(bytes)[2 * i + 1] == hex_digit_lower(bytes[i] % 16),
    decreases bytes.len(),
{
    if bytes.len() > 0 {
        lemma_hex_lower_index(bytes.drop_last());
        let h = hex_lower(bytes);
        let p = hex_lower(bytes.drop_last());
        assert forall|i: int| 0 <= i < bytes.len() implies h[2 * i] == hex_digit_lower(
            #[trigger] bytes[i] / 16,
        ) && h[2 * i + 1] == hex_digit_lower(bytes[i] % 16) by {
            if i < bytes.len() - 1 {
                assert(bytes.drop_last()[i] == bytes[i]);
                assert(h[2 * i] == p[2 * i]);
                assert(h[2 * i + 1] == p[2 * i + 1]);
            }
        }
    }
}

/// `p` is a prefix of `s`
pub open spec fn has_prefix(s: Seq<char>, p: Seq<char>) -> bool {
    p.len() <= s.len() && s.take(p.len() as int) == p
}

/// `p` occurs somewhere in `s`
pub open spec fn has_infix(s: Seq<char>, p: Seq<char>) -> bool {
    exists|i: int| 0 <= i && i + p.len() <= s.len() && #[trigger] s.subrange(i, i + p.len()) == p
}

/// Whether the characters at position `at` of `s` are those of `p`
fn chars_match_at(s: &[char], at: usize, p: &[char]) -> (r: bool)
    requires
        at + p@.len() <= s@.len(),
    ensures
        r == (s@.subrange(at as int, at + p@.len()) == p@),
{
    let mut i: usize = 0;
    let n = s.len();
    while i < p.len()
        invariant
            i <= p@.len(),
            n == s@.len(),
            at + p@.len() <= s@.len(),
            s@.subrange(at as int, at + i) == p@.take(i as int),
        decreases p.len() - i,
    {
        if s[at + i] != p[i] {
            assert(s@.subrange(at as int, at + p@.len())[i as int] != p@[i as int]);
            return false;
        }
        assert(s@.subrange(at as int, at + i + 1) =~= s@.subrange(at as int, at + i).push(
            s@[at + i],
        ));
        assert(p@.take(i + 1) =~= p@.take(i as int).push(p@[i as int]));
        i = i + 1;
    }
    assert(p@.take(i as int) =~= p@);
    true
}

/// Whether `s` starts with `p` (`str::starts_with`)
pub fn starts_with(s: &str, p: &str) -> (r: bool)
    ensures
        r == has_prefix(s@, p@),
{
    let sc = crate::json::reader::string_chars(s);
    let pc = crate::json::reader::string_chars(p);
    if pc.len() > sc.len() {
        return false;
    }
    let r = chars_match_at(sc.as_slice(), 0, pc.as_slice());
    assert(sc@.subrange(0, pc@.len() as int) =~= sc@.take(pc@.len() as int));
    r
}

/// Whether `p` occurs in `s` (`str::contains`)
pub fn contains_str(s: &str, p: &str) -> (r: bool)
    ensures
        r == has_infix(s@, p@),
{
    let sc = crate::json::reader::string_chars(s);
    let pc = crate::json::reader::string_chars(p);
    if pc.len() > sc.len() {
        return false;
    }
    let last = sc.len() - pc.len();
    let mut at: usize = 0;
    loop
        invariant
            last == sc@.len() - pc@.len(),
            sc@ == s@,
            pc@ == p@,
            at <= last,
            forall|i: int| 0 <= i < at ==> #[trigger] sc@.subrange(i, i + pc@.len()) != pc@,
        decreases last - at,
    {
        if chars_match_at(sc.as_slice(), at, pc.as_slice()) {
            return true;
        }
        if at == last {
            return false;
        }
        at = at + 1;
    }
}

/// Digits of an unsigned integer text: after an optional `+`
pub open spec fn unsigned_digits(s: Seq<u8>) -> Seq<u8> {
    if s.len() > 0 && s[0] == 0x2bu8 {
        s.skip(1)
    } else {
        s
    }
}

/// Result of `from_str` of an unsigned integer type with the given maximum: an optional `+`
/// followed by at least one decimal digit, with a value up to the maximum
pub open spec fn spec_parse_unsigned(s: Seq<u8>, max: nat) -> Option<nat> {
    let ds = unsigned_digits(s);
    if ds.len() == 0 || !all_digits(ds) || digits_value(ds) > max {
        None
    } else {
        Some(digits_value(ds))
    }
}

/// Parse an unsigned decimal integer up to a maximum, like `from_str` of an unsigned type
pub fn parse_unsigned(s: &[u8], max: u64) -> (r: Option<u64>)
    ensures
        match spec_parse_unsigned(s@, max as nat) {
            Some(v) => r == Some(v as u64),
            None => r is None,
        },
{
    let len = s.len();
    let start: usize = if len > 0 && s[0] == 0x2bu8 {
        1
    } else {
        0
    };
    let ghost ds = unsigned_digits(s@);
    assert(ds =~= s@.skip(start as int));
    if start == len {
        return None;
    }
    let mut i = start;
    let mut mag: u64 = 0;
    let mut over = false;
    while i < len
        invariant
            start <= i <= len,
            len == s@.len(),
            ds =~= s@.skip(start as int),
            ds == unsigned_digits(s@),
            all_digits(ds.take(i - start)),
            !over ==> mag as nat == digits_value(ds.take(i - start)) && mag <= max,
            over ==> digits_value(ds.take(i - start)) > max,
        decreases len - i,
    {
        let b = s[i];
        if b < 0x30u8 || b > 0x39u8 {
            assert(ds[i - start] == s@[i as int]);
            assert(!is_digit(ds[i - start]));
            return None;
        }
        let ghost prev = ds.take(i - start);
        assert(ds.take(i + 1 - start).drop_last() =~= prev);
        assert(ds.take(i + 1 - start) =~= prev.push(b));
        if !over {
            let d = (b - 0x30u8) as u64;
            match mag.checked_mul(10) {
                Some(m10) => match m10.checked_add(d) {
                    Some(v) => {
                        if v <= max {
                            mag = v;
                        } else {
                            over = true;
                        }
                    },
                    None => {
                        over = true;
                    },
                },
                None => {
                    over = true;
                    assert(digits_value(ds.take(i + 1 - start)) >= digits_value(prev) * 10);
                },
            }
        } else {
            assert(digits_value(ds.take(i + 1 - start)) >= digits_value(prev));
        }
        i = i + 1;
    }
    assert(ds.take(len - start) =~= ds);
    if over {
        None
    } else {
        Some(mag)
    }
}

} // verus!
