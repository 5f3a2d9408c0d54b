//! `user/list` request and the user records it returns

use crate::json::error::Error;
use crate::json::value::{fields_view, JsonValue, Value};
use crate::json::writer::{value_text, Writer};
use crate::text::{contains_str, has_infix, has_prefix, starts_with};
use vstd::prelude::*;

verus! {

/// `user/list` request
#[derive(Debug)]
pub struct UserListRequest {
    pub accesstoken: String,
}

impl UserListRequest {
    /// Write the request as a JSON object
    pub fn to_json(&self, writer: &mut Writer) -> (r: Result<(), Error>)
        ensures
            r is Ok,
            final(writer).written() == old(writer).written() + value_text(
                JsonValue::Object(seq![("accesstoken"@, JsonValue::String(self.accesstoken@))]),
            ),
    {
        let mut fs: Vec<(String, Value)> = Vec::new();
        fs.push((String::from_str("accesstoken"), Value::String(self.accesstoken.clone())));
        proof {
            reveal_with_fuel(fields_view, 2);
            assert(fs@.drop_last() =~= Seq::<(String, Value)>::empty());
        }
        assert(fields_view(fs@) =~= seq![("accesstoken"@, JsonValue::String(self.accesstoken@))]);
        writer.write_fields(fs.as_slice())
    }
}

/// User keymanagement entry
#[derive(Debug)]
pub struct Key {
    /// Key label
    pub title: String,
    /// Key number
    pub keyname: String,
}

/// User
#[derive(Debug)]
pub struct User {
    pub firstname: String,
    pub memberid: u32,
    pub memberstatus: String,
    pub keymanagement: Vec<Key>,
}

/// Lower case form of a text, as `str::to_lowercase` makes it (Unicode lower case mapping)
pub uninterp spec fn lowercase(s: Seq<char>) -> Seq<char>;

/// `str::to_lowercase`. Stated: the result is the name `lowercase` of the text; what the Unicode
/// mapping does to each character is not stated.
#[verifier::external_body]
fn to_lowercase(s: &str) -> (r: String)
    ensures
        r@ == lowercase(s@),
{
    s.to_lowercase()
}

/// Key numbers of the keys whose label starts with the given prefix, in order
pub open spec fn keys_with_prefix(keys: Seq<Key>, prefix: Seq<char>) -> Seq<Seq<char>>
    decreases keys.len(),
{
    if keys.len() == 0 {
        seq![]
    } else {
        let init = keys_with_prefix(keys.drop_last(), prefix);
        if has_prefix(keys.last().title@, prefix) {
            init.push(keys.last().keyname@)
        } else {
            init
        }
    }
}

/// Views of a sequence of string slices
pub open spec fn str_views(v: Seq<&str>) -> Seq<Seq<char>> {
    v.map_values(|s: &str| s@)
}

/// Whether a lower case member status says that the member has retired ("ausgeschieden")
pub fn status_says_retired(lower: &str) -> (r: bool)
    ensures
        r == has_infix(lower@, "ausgeschieden"@),
{
    contains_str(lower, "ausgeschieden")
}

impl User {
    /// Whether the user has retired ("ausgeschieden")
    pub fn is_retired(&self) -> (r: bool)
        ensures
            r == has_infix(lowercase(self.memberstatus@), "ausgeschieden"@),
    {
        let lower = to_lowercase(self.memberstatus.as_str());
        status_says_retired(lower.as_str())
    }

    /// Get key numbers with the given label prefix
    pub fn keys_named_with_prefix<'a>(&'a self, prefix: &str) -> (r: Vec<&'a str>)
        ensures
            str_views(r@) == keys_with_prefix(self.keymanagement@, prefix@),
    {
        let mut out: Vec<&'a str> = Vec::new();
        let mut i: usize = 0;
        assert(self.keymanagement@.take(0) =~= Seq::<Key>::empty());
        assert(str_views(out@) =~= Seq::<Seq<char>>::empty());
        while i < self.keymanagement.len()
            invariant
                i <= self.keymanagement@.len(),
                str_views(out@) == keys_with_prefix(self.keymanagement@.take(i as int), prefix@),
            decreases self.keymanagement.len() - i,
        {
            let key = &self.keymanagement[i];
            let ghost t = self.keymanagement@.take(i + 1);
            assert(t.drop_last() =~= self.keymanagement@.take(i as int));
            assert(t.last() == *key);
            if starts_with(key.title.as_str(), prefix) {
                out.push(key.keyname.as_str());
                assert(str_views(out@) =~= keys_with_prefix(t, prefix@));
            }
            i = i + 1;
        }
        assert(self.keymanagement@.take(i as int) =~= self.keymanagement@);
        out
    }
}

} // verus!
