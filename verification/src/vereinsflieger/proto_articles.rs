//! `articles/list` request and the article records it returns

use crate::json::error::Error;
use crate::json::value::{fields_view, JsonValue, Value};
use crate::json::writer::{value_text, Writer};
use crate::text::ascii_chars;
use vstd::prelude::*;

verus! {

/// `articles/list` request
#[derive(Debug)]
pub struct ArticleListRequest {
    pub accesstoken: String,
}

impl ArticleListRequest {
    /// Write the request as a JSON object
    pub fn to_json(&self, writer: &mut Writer) -> (r: Result<(), Error>)
        ensures
            r is Ok,
            final(writer).written() == old(writer).written() + value_text(
                JsonValue::Object(seq![("accesstoken"@, JsonValue::String(self.accesstoken@))]),
            ),
    {
        let mut fs: Vec<(String, Value)> = Vec::new();
        fs.push((String::from_str("accesstoken"), Value::String(self.accesstoken.clone())));
        proof {
            reveal_with_fuel(fields_view, 2);
            assert(fs@.drop_last() =~= Seq::<(String, Value)>::empty());
        }
        assert(fields_view(fs@) =~= seq![("accesstoken"@, JsonValue::String(self.accesstoken@))]);
        writer.write_fields(fs.as_slice())
    }
}

/// Calendar date (as written `yyyy-mm-dd`)
#[derive(Debug, Clone, Copy, PartialEq, Eq, Structural)]
pub struct Date {
    pub year: i32,
    pub month: u32,
    pub day: u32,
}

/// Digits of a number, zero padded to the given width
pub open spec fn padded_digits(n: nat, width: nat) -> Seq<u8>
    decreases width,
{
    if width == 0 {
        seq![]
    } else {
        padded_digits(n / 10, (width - 1) as nat).push((0x30 + n % 10) as u8)
    }
}

/// Text of a date, `yyyy-mm-dd`
pub open spec fn date_text(d: Date) -> Seq<char> {
    ascii_chars(
        padded_digits(d.year as nat, 4) + seq![0x2du8] + padded_digits(d.month as nat, 2) + seq![
            0x2du8,
        ] + padded_digits(d.day as nat, 2),
    )
}

/// Append the digits of a number, zero padded to the given width
fn push_padded(n: u32, width: u32, out: &mut Vec<u8>)
    requires
        width <= 10,
    ensures
        final(out)@ == old(out)@ + padded_digits(n as nat, width as nat),
    decreases width,
{
    if width > 0 {
        push_padded(n / 10, width - 1, out);
        out.push((0x30 + n % 10) as u8);
    }
}

impl Date {
    /// Text of the date, `yyyy-mm-dd` (for years 0 to 9999)
    pub fn to_text(&self) -> (r: String)
        requires
            0 <= self.year <= 9999,
            self.month <= 99,
            self.day <= 99,
        ensures
            r@ == date_text(*self),
    {
        let mut out: Vec<u8> = Vec::new();
        push_padded(self.year as u32, 4, &mut out);
        out.push(0x2du8);
        push_padded(self.month, 2, &mut out);
        out.push(0x2du8);
        push_padded(self.day, 2, &mut out);
        proof {
            lemma_padded_digits_ascii(self.year as nat, 4);
            lemma_padded_digits_ascii(self.month as nat, 2);
            lemma_padded_digits_ascii(self.day as nat, 2);
        }
        assert(out@ =~= padded_digits(self.year as nat, 4) + seq![0x2du8] + padded_digits(
            self.month as nat,
            2,
        ) + seq![0x2du8] + padded_digits(self.day as nat, 2));
        assert forall|i: int| 0 <= i < out@.len() implies out@[i] < 128 by {
            let a = padded_digits(self.year as nat, 4);
            let b = padded_digits(self.month as nat, 2);
            if i < 4 {
                assert(out@[i] == a[i]);
            } else if 5 <= i < 7 {
                assert(out@[i] == b[i - 5]);
            } else if 8 <= i {
                assert(out@[i] == padded_digits(self.day as nat, 2)[i - 8]);
            }
        }
        crate::text::ascii_to_string(out.as_slice())
    }
}

/// Value of a decimal digit character
pub open spec fn digit_value(c: char) -> int {
    c as int - 48
}

/// The text of a date is `yyyy-mm-dd`: four digits that give the year, a hyphen, two digits that
/// give the month, a hyphen and two digits that give the day
pub proof fn law_date_text(d: Date)
    requires
        0 <= d.year <= 9999,
        d.month <= 99,
        d.day <= 99,
    ensures
        ({
            let t = date_text(d);
            &&& t.len() == 10
            &&& t[4] == '-' && t[7] == '-'
            &&& forall|i: int| 0 <= i < 10 && i != 4 && i != 7 ==> '0' <= #[trigger] t[i] <= '9'
            &&& digit_value(t[0]) * 1000 + digit_value(t[1]) * 100 + digit_value(t[2]) * 10
                + digit_value(t[3]) == d.year
            &&& digit_value(t[5]) * 10 + digit_value(t[6]) == d.month
            &&& digit_value(t[8]) * 10 + digit_value(t[9]) == d.day
        }),
{
    let y = d.year as nat;
    let m = d.month as nat;
    let dd = d.day as nat;
    reveal_with_fuel(padded_digits, 5);
    lemma_padded_digits_ascii(y, 4);
    lemma_padded_digits_ascii(m, 2);
    lemma_padded_digits_ascii(dd, 2);
    let a = padded_digits(y, 4);
    let b = padded_digits(m, 2);
    let c = padded_digits(dd, 2);
    let bytes = a + seq![0x2du8] + b + seq![0x2du8] + c;
    let t = date_text(d);
    assert(t.len() == 10);
    assert forall|i: int| 0 <= i < 10 implies #[trigger] t[i] == bytes[i] as char by {}
    assert(a == seq![
        (0x30 + y / 1000 % 10) as u8,
        (0x30 + y / 100 % 10) as u8,
        (0x30 + y / 10 % 10) as u8,
        (0x30 + y % 10) as u8,
    ]) by {
        assert(y / 10 / 10 == y / 100) by (nonlinear_arith);
        assert(y / 10 / 10 / 10 == y / 1000) by (nonlinear_arith);
        assert(padded_digits(y, 4) =~= seq![
            (0x30 + y / 1000 % 10) as u8,
            (0x30 + y / 100 % 10) as u8,
            (0x30 + y / 10 % 10) as u8,
            (0x30 + y % 10) as u8,
        ]);
    }
    assert(b =~= seq![(0x30 + m / 10 % 10) as u8, (0x30 + m % 10) as u8]);
    assert(c =~= seq![(0x30 + dd / 10 % 10) as u8, (0x30 + dd % 10) as u8]);
    assert(y / 1000 % 10 * 1000 + y / 100 % 10 * 100 + y / 10 % 10 * 10 + y % 10 == y) by (nonlinear_arith)
        requires
            y <= 9999,
    ;
    assert(m / 10 % 10 * 10 + m % 10 == m) by (nonlinear_arith)
        requires
            m <= 99,
    ;
    assert(dd / 10 % 10 * 10 + dd % 10 == dd) by (nonlinear_arith)
        requires
            dd <= 99,
    ;
}

/// Zero padded digits are ASCII digits, as many as the width
proof fn lemma_padded_digits_ascii(n: nat, width: nat)
    ensures
        padded_digits(n, width).len() == width,
        forall|i: int| 0 <= i < width ==> 0x30 <= #[trigger] padded_digits(n, width)[i] <= 0x39,
    decreases width,
{
    if width > 0 {
        lemma_padded_digits_ascii(n / 10, (width - 1) as nat);
    }
}

/// Dates in calendar order: by year, then month, then day
pub open spec fn date_le(a: Date, b: Date) -> bool {
    a.year < b.year || (a.year == b.year && (a.month < b.month || (a.month == b.month && a.day
        <= b.day)))
}

/// Whether a date is on or before another
pub fn date_on_or_before(a: Date, b: Date) -> (r: bool)
    ensures
        r == date_le(a, b),
{
    a.year < b.year || (a.year == b.year && (a.month < b.month || (a.month == b.month && a.day
        <= b.day)))
}

/// Dates are compared in calendar order: an earlier year comes first whatever the months and
/// days, within a year an earlier month comes first whatever the days, and within a month the
/// earlier day comes first
pub proof fn law_date_order(a: Date, b: Date)
    ensures
        a.year < b.year ==> date_le(a, b),
        a.year > b.year ==> !date_le(a, b),
        a.year == b.year && a.month < b.month ==> date_le(a, b),
        a.year == b.year && a.month > b.month ==> !date_le(a, b),
        a.year == b.year && a.month == b.month ==> (date_le(a, b) <==> a.day <= b.day),
{
}

/// The open end of a price's validity, 9999-12-31
pub open spec fn open_end() -> Date {
    Date { year: 9999, month: 12, day: 31 }
}

/// Article price with its validity period
#[derive(Debug)]
pub struct ArticlePrice<P> {
    pub validfrom: Date,
    pub validto: Date,
    pub unitprice: P,
}

/// Article
#[derive(Debug)]
pub struct Article<P> {
    pub articleid: String,
    pub designation: String,
    pub prices: Vec<ArticlePrice<P>>,
}

/// Price valid on a date: that of the last price entry whose validity period contains it
pub open spec fn price_on<P>(prices: Seq<ArticlePrice<P>>, date: Date) -> Option<P>
    decreases prices.len(),
{
    if prices.len() == 0 {
        None
    } else if date_le(prices.last().validfrom, date) && date_le(date, prices.last().validto) {
        Some(prices.last().unitprice)
    } else {
        price_on(prices.drop_last(), date)
    }
}

/// A price entry's validity period contains the date
pub open spec fn in_period<P>(price: ArticlePrice<P>, date: Date) -> bool {
    date_le(price.validfrom, date) && date_le(date, price.validto)
}

/// The price valid on a date is that of the last entry whose validity period contains the date;
/// there is none exactly when no entry's period contains it
pub proof fn law_price_on<P>(prices: Seq<ArticlePrice<P>>, date: Date)
    ensures
        price_on(prices, date) is None <==> forall|i: int|
            0 <= i < prices.len() ==> !in_period(#[trigger] prices[i], date),
        price_on(prices, date) matches Some(p) ==> exists|i: int|
            0 <= i < prices.len() && in_period(#[trigger] prices[i], date) && prices[i].unitprice
                == p && forall|j: int| i < j < prices.len() ==> !in_period(#[trigger] prices[j], date),
    decreases prices.len(),
{
    if prices.len() > 0 {
        let init = prices.drop_last();
        law_price_on(init, date);
        let last = prices.len() - 1;
        assert(prices[last] == prices.last());
        if in_period(prices.last(), date) {
            assert(in_period(prices[last], date));
        } else {
            assert forall|i: int| 0 <= i < init.len() implies init[i] == prices[i] by {}
            if price_on(init, date) is None {
                assert forall|i: int| 0 <= i < prices.len() implies !in_period(
                    #[trigger] prices[i],
                    date,
                ) by {
                    if i < last {
                        assert(!in_period(init[i], date));
                    }
                }
            } else {
                let p = price_on(init, date)->Some_0;
                let i = choose|i: int|
                    0 <= i < init.len() && in_period(#[trigger] init[i], date) && init[i].unitprice
                        == p && forall|j: int|
                        i < j < init.len() ==> !in_period(#[trigger] init[j], date);
                assert(in_period(prices[i], date) && prices[i].unitprice == p);
                assert forall|j: int| i < j < prices.len() implies !in_period(
                    #[trigger] prices[j],
                    date,
                ) by {
                    if j < last {
                        assert(!in_period(init[j], date));
                    }
                }
                assert(!(forall|k: int| 0 <= k < prices.len() ==> !in_period(#[trigger] prices[k], date)));
            }
        }
    }
}

/// Current price: that of the last entry valid until 9999-12-31, else that of the last entry
pub open spec fn current_price<P>(prices: Seq<ArticlePrice<P>>) -> Option<P> {
    match open_ended_price(prices) {
        Some(p) => Some(p),
        None => if prices.len() > 0 {
            Some(prices.last().unitprice)
        } else {
            None
        },
    }
}

/// Price of the last entry valid until 9999-12-31
pub open spec fn open_ended_price<P>(prices: Seq<ArticlePrice<P>>) -> Option<P>
    decreases prices.len(),
{
    if prices.len() == 0 {
        None
    } else if prices.last().validto == open_end() {
        Some(prices.last().unitprice)
    } else {
        open_ended_price(prices.drop_last())
    }
}

impl<P: Copy> Article<P> {
    /// Get price valid on given date
    pub fn price_valid_on(&self, date: Date) -> (r: Option<P>)
        ensures
            r == price_on(self.prices@, date),
    {
        let mut i = self.prices.len();
        assert(self.prices@.take(i as int) =~= self.prices@);
        while i > 0
            invariant
                i <= self.prices@.len(),
                price_on(self.prices@, date) == price_on(self.prices@.take(i as int), date),
            decreases i,
        {
            let p = &self.prices[i - 1];
            assert(self.prices@.take(i as int).drop_last() =~= self.prices@.take(i - 1));
            if date_on_or_before(p.validfrom, date) && date_on_or_before(date, p.validto) {
                return Some(p.unitprice);
            }
            i = i - 1;
        }
        None
    }

    /// Get today's price without knowing today's date: the last entry valid until 9999-12-31,
    /// or any last entry otherwise
    pub fn price(&self) -> (r: Option<P>)
        ensures
            r == current_price(self.prices@),
    {
        let mut i = self.prices.len();
        assert(self.prices@.take(i as int) =~= self.prices@);
        while i > 0
            invariant
                i <= self.prices@.len(),
                open_ended_price(self.prices@) == open_ended_price(self.prices@.take(i as int)),
            decreases i,
        {
            let p = &self.prices[i - 1];
            assert(self.prices@.take(i as int).drop_last() =~= self.prices@.take(i - 1));
            if p.validto.year == 9999 && p.validto.month == 12 && p.validto.day == 31 {
                return Some(p.unitprice);
            }
            i = i - 1;
        }
        let n = self.prices.len();
        if n > 0 {
            Some(self.prices[n - 1].unitprice)
        } else {
            None
        }
    }
}

} // verus!
