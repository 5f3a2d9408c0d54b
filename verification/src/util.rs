//! Display helpers (redacted strings, optional values, lists, durations) and rectangle splitting

use crate::ota::chars_to_string;
use crate::text::{ascii_chars, decimal_digits, push_decimal_u64};
use vstd::prelude::*;
use vstd::string::{StrSliceExecFns, StringExecFns};

verus! {

/// String with sensitive content (debug and display output redacted)
#[derive(Debug, Default)]
pub struct SensitiveString(pub String);

/// Text shown for a sensitive string: empty if it is empty, else `<redacted>`
pub open spec fn redacted_text(s: Seq<char>) -> Seq<char> {
    if s.len() == 0 {
        s
    } else {
        "<redacted>"@
    }
}

impl SensitiveString {
    /// Text to show: the (empty) string itself, or `<redacted>`
    pub fn to_string(&self) -> (r: String)
        ensures
            r@ == redacted_text(self.0@),
    {
        if self.0.as_str().unicode_len() == 0 {
            String::new()
        } else {
            String::from_str("<redacted>")
        }
    }

    /// The content itself
    pub fn as_str(&self) -> (r: &str)
        ensures
            r@ == self.0@,
    {
        self.0.as_str()
    }
}

/// Option display helper: `-` for no value
pub struct DisplayOption<T>(pub Option<T>);

impl DisplayOption<String> {
    /// Text to show: the value, or `-` if there is none
    pub fn to_string(&self) -> (r: String)
        ensures
            r@ == match self.0 {
                Some(s) => s@,
                None => "-"@,
            },
    {
        match &self.0 {
            Some(s) => s.clone(),
            None => String::from_str("-"),
        }
    }
}

/// List display helper: `-` for an empty list, else the elements separated by `, `
pub struct DisplaySlice<'a, T>(pub &'a [T]);

/// Elements joined with `, `
pub open spec fn joined(items: Seq<Seq<char>>) -> Seq<char>
    decreases items.len(),
{
    if items.len() == 0 {
        seq![]
    } else if items.len() == 1 {
        items[0]
    } else {
        joined(items.drop_last()) + ", "@ + items.last()
    }
}

/// Views of strings
pub open spec fn string_seq(v: Seq<String>) -> Seq<Seq<char>> {
    v.map_values(|s: String| s@)
}

/// Append a text to a string
pub(crate) fn push_str(s: &mut String, t: &str)
    ensures
        final(s)@ == old(s)@ + t@,
{
    s.append(t);
}

impl<'a> DisplaySlice<'a, String> {
    /// Text to show: `-` for an empty list, else the elements separated by `, `
    pub fn to_string(&self) -> (r: String)
        ensures
            self.0@.len() == 0 ==> r@ == "-"@,
            self.0@.len() > 0 ==> r@ == joined(string_seq(self.0@)),
    {
        if self.0.len() == 0 {
            return String::from_str("-");
        }
        let mut out = String::new();
        let mut i: usize = 0;
        while i < self.0.len()
            invariant
                i <= self.0@.len(),
                out@ == joined(string_seq(self.0@.take(i as int))),
            decreases self.0.len() - i,
        {
            let ghost t = self.0@.take(i + 1);
            assert(string_seq(t).drop_last() =~= string_seq(self.0@.take(i as int)));
            if i > 0 {
                push_str(&mut out, ", ");
            } else {
                assert(string_seq(self.0@.take(i as int)) =~= Seq::<Seq<char>>::empty());
            }
            push_str(&mut out, self.0[i].as_str());
            assert(out@ =~= joined(string_seq(t)));
            i = i + 1;
        }
        assert(self.0@.take(i as int) =~= self.0@);
        out
    }
}

/// Duration display helper (a duration in seconds)
pub struct DisplayDuration(pub u64);

/// Text of a duration: hours, minutes and seconds, like `1h2m3s`
pub open spec fn duration_text(secs: u64) -> Seq<char> {
    ascii_chars(decimal_digits((secs / 3600) as nat)) + "h"@ + ascii_chars(
        decimal_digits((secs % 3600 / 60) as nat),
    ) + "m"@ + ascii_chars(decimal_digits((secs % 60) as nat)) + "s"@
}

/// Decimal text of a number
pub fn decimal_string(n: u64) -> (r: String)
    ensures
        r@ == ascii_chars(decimal_digits(n as nat)),
{
    let mut digits: Vec<u8> = Vec::new();
    push_decimal_u64(n, &mut digits);
    assert(digits@ =~= decimal_digits(n as nat));
    proof {
        crate::text::lemma_decimal_digits_props(n as nat);
    }
    assert forall|i: int| 0 <= i < digits@.len() implies digits@[i] < 128 by {
        assert(crate::text::is_digit(decimal_digits(n as nat)[i]));
    }
    crate::text::ascii_to_string(digits.as_slice())
}

impl DisplayDuration {
    /// Text to show: hours, minutes and seconds
    pub fn to_string(&self) -> (r: String)
        ensures
            r@ == duration_text(self.0),
    {
        let secs = self.0;
        let mut out = decimal_string(secs / 3600);
        push_str(&mut out, "h");
        let m = decimal_string(secs % 3600 / 60);
        push_str(&mut out, m.as_str());
        push_str(&mut out, "m");
        let s = decimal_string(secs % 60);
        push_str(&mut out, s.as_str());
        push_str(&mut out, "s");
        out
    }
}

// ---------------------------------------------------------------------------------------------
// Rectangles
// ---------------------------------------------------------------------------------------------

/// Rectangle: top left corner and size
#[derive(Debug, Clone, Copy, PartialEq, Eq, Structural)]
pub struct Rect {
    pub x: i32,
    pub y: i32,
    pub width: u32,
    pub height: u32,
}

/// A dimension as `i32`, saturating, and at least 1 (zero sized dimensions count as 1)
pub open spec fn dim(v: u32) -> int {
    let s: int = if v > i32::MAX {
        i32::MAX as int
    } else {
        v as int
    };
    if s < 1 {
        1
    } else {
        s
    }
}

/// Rectangle with a new height: the top edge stays where it is (`bottom` false) or the bottom
/// edge does (`bottom` true)
pub open spec fn spec_resized_height(r: Rect, height: u32, bottom: bool) -> Rect {
    Rect {
        x: r.x,
        y: if bottom {
            (r.y + dim(r.height) - dim(height)) as i32
        } else {
            r.y
        },
        width: r.width,
        height,
    }
}

/// Moving a rectangle's edge does not overflow its coordinate
pub open spec fn resize_fits(r: Rect, height: u32) -> bool {
    i32::MIN <= r.y + dim(r.height) - dim(height) <= i32::MAX
}

/// `embedded_graphics::primitives::Rectangle::resized_height` with `AnchorY::Top` or
/// `AnchorY::Bottom`, on the rectangle's plain values. Stated as its source shows: the width and
/// the left edge stay, the height is the new one, and for the bottom anchor the top edge moves by
/// the difference of the heights (each saturated to `i32` and at least 1).
#[verifier::external_body]
fn resized_height(r: Rect, height: u32, bottom: bool) -> (out: Rect)
    requires
        resize_fits(r, height),
    ensures
        out == spec_resized_height(r, height, bottom),
{
    let rect = embedded_graphics::primitives::Rectangle::new(
        embedded_graphics::geometry::Point::new(r.x, r.y),
        embedded_graphics::geometry::Size::new(r.width, r.height),
    );
    let anchor = if bottom {
        embedded_graphics::geometry::AnchorY::Bottom
    } else {
        embedded_graphics::geometry::AnchorY::Top
    };
    let out = rect.resized_height(height, anchor);
    Rect { x: out.top_left.x, y: out.top_left.y, width: out.size.width, height: out.size.height }
}

/// Rectangle helper methods
pub trait RectangleExt: Sized {
    /// Whether the split at the given height fits
    spec fn splits_at(&self, height: u32) -> bool;

    /// Split rectangle into two: a top part of given height (header) and bottom part
    fn header(&self, height: u32) -> (r: (Self, Self))
        requires
            self.splits_at(height),
    ;

    /// Split rectangle into two: a top part and bottom part of given height (footer)
    fn footer(&self, height: u32) -> (r: (Self, Self))
        requires
            self.splits_at(height),
    ;
}

impl RectangleExt for Rect {
    open spec fn splits_at(&self, height: u32) -> bool {
        height <= self.height && resize_fits(*self, height) && resize_fits(
            *self,
            (self.height - height) as u32,
        )
    }

    fn header(&self, height: u32) -> (r: (Rect, Rect))
        ensures
            r.0 == spec_resized_height(*self, height, false),
            r.1 == spec_resized_height(*self, (self.height - height) as u32, true),
    {
        (resized_height(*self, height, false), resized_height(*self, self.height - height, true))
    }

    fn footer(&self, height: u32) -> (r: (Rect, Rect))
        ensures
            r.0 == spec_resized_height(*self, (self.height - height) as u32, false),
            r.1 == spec_resized_height(*self, height, true),
    {
        (resized_height(*self, self.height - height, false), resized_height(*self, height, true))
    }
}

} // verus!
