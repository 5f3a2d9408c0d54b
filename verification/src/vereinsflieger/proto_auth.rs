//! `auth/*` requests and responses

use crate::json::error::Error;
use crate::json::reader::{chars_eq, string_chars, Reader};
use crate::json::value::{fields_view, value_view, JsonValue, Value};
use crate::json::writer::{field_text, value_text, Writer};
use vstd::prelude::*;

verus! {

/// Value of the last field with the given key, if any
pub open spec fn field_of(fs: Seq<(Seq<char>, JsonValue)>, key: Seq<char>) -> Option<JsonValue>
    decreases fs.len(),
{
    if fs.len() == 0 {
        None
    } else if fs.last().0 == key {
        Some(fs.last().1)
    } else {
        field_of(fs.drop_last(), key)
    }
}

/// A field is found by its key: the value of the last field with that key, none if no field has
/// it
pub proof fn law_field_of(fs: Seq<(Seq<char>, JsonValue)>, key: Seq<char>)
    ensures
        field_of(fs, key) is None <==> forall|i: int| 0 <= i < fs.len() ==> #[trigger] fs[i].0 != key,
        field_of(fs, key) matches Some(v) ==> exists|i: int|
            0 <= i < fs.len() && #[trigger] fs[i] == (key, v) && forall|j: int|
                i < j < fs.len() ==> #[trigger] fs[j].0 != key,
    decreases fs.len(),
{
    if fs.len() > 0 {
        let init = fs.drop_last();
        law_field_of(init, key);
        let last = fs.len() - 1;
        assert(fs[last] == fs.last());
        assert forall|i: int| 0 <= i < init.len() implies init[i] == fs[i] by {}
        if fs.last().0 != key {
            if field_of(init, key) is None {
                assert forall|i: int| 0 <= i < fs.len() implies #[trigger] fs[i].0 != key by {
                    if i < last {
                        assert(init[i].0 != key);
                    }
                }
            } else {
                let v = field_of(init, key)->Some_0;
                let i = choose|i: int|
                    0 <= i < init.len() && #[trigger] init[i] == (key, v) && forall|j: int|
                        i < j < init.len() ==> #[trigger] init[j].0 != key;
                assert(fs[i] == (key, v));
                assert forall|j: int| i < j < fs.len() implies #[trigger] fs[j].0 != key by {
                    if j < last {
                        assert(init[j].0 != key);
                    }
                }
                assert(!(forall|k: int| 0 <= k < fs.len() ==> #[trigger] fs[k].0 != key)) by {
                    assert(fs[i].0 == key);
                }
            }
        }
    }
}

/// Value of the last field with the given key
pub fn find_field<'a>(fs: &'a [(String, Value)], key: &str) -> (r: Option<&'a Value>)
    ensures
        match field_of(fields_view(fs@), key@) {
            Some(v) => r matches Some(x) && x@ == v,
            None => r is None,
        },
{
    let k = string_chars(key);
    let mut i = fs.len();
    proof {
        crate::json::value::lemma_fields_view(fs@);
    }
    assert(fs@.take(i as int) =~= fs@);
    while i > 0
        invariant
            i <= fs@.len(),
            k@ == key@,
            field_of(fields_view(fs@), key@) == field_of(fields_view(fs@.take(i as int)), key@),
        decreases i,
    {
        let ghost t = fs@.take(i as int);
        assert(t.drop_last() =~= fs@.take(i - 1));
        assert(fields_view(t).drop_last() == fields_view(t.drop_last()));
        assert(fields_view(t).last() == (t.last().0@, value_view(t.last().1)));
        let have = string_chars(fs[i - 1].0.as_str());
        if chars_eq(have.as_slice(), k.as_slice()) {
            return Some(&fs[i - 1].1);
        }
        i = i - 1;
    }
    None
}

/// A string field: its text, empty where the field is missing, an error where it is not a string
pub open spec fn string_field(fs: Seq<(Seq<char>, JsonValue)>, key: Seq<char>) -> Result<
    Seq<char>,
    Error,
> {
    match field_of(fs, key) {
        None => Ok(Seq::empty()),
        Some(JsonValue::String(s)) => Ok(s),
        Some(_) => Err(Error::InvalidType),
    }
}

/// Read a string field
pub fn read_string_field(fs: &[(String, Value)], key: &str) -> (r: Result<String, Error>)
    ensures
        match string_field(fields_view(fs@), key@) {
            Ok(s) => r matches Ok(x) && x@ == s,
            Err(e) => r == Err::<String, Error>(e),
        },
{
    match find_field(fs, key) {
        None => Ok(String::new()),
        Some(Value::String(s)) => Ok(s.clone()),
        Some(_) => Err(Error::InvalidType),
    }
}

/// `auth/accesstoken` response
#[derive(Debug)]
pub struct AccessTokenResponse {
    pub accesstoken: String,
}

impl AccessTokenResponse {
    /// Read the response object: its `accesstoken` string (empty if missing); other fields are
    /// skipped
    pub fn read(reader: &mut Reader) -> (r: Result<Self, Error>)
        ensures
            match crate::json::reader::spec_read_object(old(reader).source(), old(reader).offset()) {
                Ok((fs, _)) => match string_field(fs, "accesstoken"@) {
                    Ok(t) => r matches Ok(x) && x.accesstoken@ == t,
                    Err(e) => r matches Err(x) && x == e,
                },
                Err(e) => r matches Err(x) && x == e,
            },
    {
        let fs = match reader.read_object() {
            Ok(fs) => fs,
            Err(e) => return Err(e),
        };
        match read_string_field(fs.as_slice(), "accesstoken") {
            Ok(t) => Ok(AccessTokenResponse { accesstoken: t }),
            Err(e) => Err(e),
        }
    }
}

/// `auth/signin` request
#[derive(Debug)]
pub struct SignInRequest {
    pub accesstoken: String,
    pub username: String,
    pub password_md5: String,
    pub appkey: String,
    pub cid: Option<u32>,
    pub auth_secret: Option<String>,
}

/// Fields of a sign in request, in the order they are written (the optional ones only where
/// given)
pub open spec fn sign_in_fields(r: SignInRequest) -> Seq<(Seq<char>, JsonValue)> {
    seq![
        ("accesstoken"@, JsonValue::String(r.accesstoken@)),
        ("username"@, JsonValue::String(r.username@)),
        ("password"@, JsonValue::String(r.password_md5@)),
        ("appkey"@, JsonValue::String(r.appkey@)),
    ] + match r.cid {
        Some(c) => seq![("cid"@, JsonValue::Integer(c as i64))],
        None => seq![],
    } + match r.auth_secret {
        Some(s) => seq![("auth_secret"@, JsonValue::String(s@))],
        None => seq![],
    }
}

impl SignInRequest {
    /// Write the request as a JSON object
    pub fn to_json(&self, writer: &mut Writer) -> (r: Result<(), Error>)
        ensures
            r is Ok,
            final(writer).written() == old(writer).written() + value_text(
                JsonValue::Object(sign_in_fields(*self)),
            ),
    {
        let mut fs: Vec<(String, Value)> = Vec::new();
        fs.push((String::from_str("accesstoken"), Value::String(self.accesstoken.clone())));
        fs.push((String::from_str("username"), Value::String(self.username.clone())));
        fs.push((String::from_str("password"), Value::String(self.password_md5.clone())));
        fs.push((String::from_str("appkey"), Value::String(self.appkey.clone())));
        let ghost base = fs@;
        match self.cid {
            Some(cid) => {
                fs.push((String::from_str("cid"), Value::Integer(cid as i64)));
            },
            None => {},
        }
        let ghost mid = fs@;
        match &self.auth_secret {
            Some(s) => {
                fs.push((String::from_str("auth_secret"), Value::String(s.clone())));
            },
            None => {},
        }
        proof {
            reveal_with_fuel(crate::json::value::fields_view, 7);
            assert(fields_view(base) =~= seq![
                ("accesstoken"@, JsonValue::String(self.accesstoken@)),
                ("username"@, JsonValue::String(self.username@)),
                ("password"@, JsonValue::String(self.password_md5@)),
                ("appkey"@, JsonValue::String(self.appkey@)),
            ]);
            if self.cid is Some {
                assert(mid.drop_last() =~= base);
            } else {
                assert(mid =~= base);
            }
            if self.auth_secret is Some {
                assert(fs@.drop_last() =~= mid);
            } else {
                assert(fs@ =~= mid);
            }
            assert(fields_view(fs@) =~= sign_in_fields(*self));
        }
        writer.write_fields(fs.as_slice())
    }
}

/// `auth/signin` response (no fields are used)
#[derive(Debug)]
pub struct SignInResponse {}

impl SignInResponse {
    /// Read the response object, skipping its fields
    pub fn read(reader: &mut Reader) -> (r: Result<Self, Error>)
        ensures
            match crate::json::reader::spec_read_object(old(reader).source(), old(reader).offset()) {
                Ok(_) => r is Ok,
                Err(e) => r matches Err(x) && x == e,
            },
    {
        match reader.read_object() {
            Ok(_) => Ok(SignInResponse {  }),
            Err(e) => Err(e),
        }
    }
}

/// `auth/getuser` request
#[derive(Debug)]
pub struct UserInformationRequest {
    pub accesstoken: String,
}

impl UserInformationRequest {
    /// Write the request as a JSON object
    pub fn to_json(&self, writer: &mut Writer) -> (r: Result<(), Error>)
        ensures
            r is Ok,
            final(writer).written() == old(writer).written() + value_text(
                JsonValue::Object(seq![("accesstoken"@, JsonValue::String(self.accesstoken@))]),
            ),
    {
        let mut fs: Vec<(String, Value)> = Vec::new();
        fs.push((String::from_str("accesstoken"), Value::String(self.accesstoken.clone())));
        proof {
            reveal_with_fuel(crate::json::value::fields_view, 2);
            assert(fs@.drop_last() =~= Seq::<(String, Value)>::empty());
        }
        assert(fields_view(fs@) =~= seq![("accesstoken"@, JsonValue::String(self.accesstoken@))]);
        writer.write_fields(fs.as_slice())
    }
}

/// A number field: a number or numeric string that fits `u32` (zero if missing), an error
/// otherwise
pub open spec fn u32_field(fs: Seq<(Seq<char>, JsonValue)>, key: Seq<char>) -> Result<u32, Error> {
    match field_of(fs, key) {
        None => Ok(0),
        Some(v) => match crate::json::value::spec_to_unsigned(v, u32::MAX as nat) {
            Some(n) => Ok(n as u32),
            None => Err(Error::InvalidType),
        },
    }
}

/// Read a number field that fits `u32`
pub fn read_u32_field(fs: &[(String, Value)], key: &str) -> (r: Result<u32, Error>)
    ensures
        r == u32_field(fields_view(fs@), key@),
{
    match find_field(fs, key) {
        None => Ok(0),
        Some(v) => match v.to_u32() {
            Ok(n) => Ok(n),
            Err(e) => Err(Error::from_value_error(e)),
        },
    }
}

/// Strings of an array of strings
pub open spec fn string_items(vs: Seq<JsonValue>) -> Option<Seq<Seq<char>>>
    decreases vs.len(),
{
    if vs.len() == 0 {
        Some(seq![])
    } else {
        match (string_items(vs.drop_last()), vs.last()) {
            (Some(init), JsonValue::String(s)) => Some(init.push(s)),
            _ => None,
        }
    }
}

/// A field with an array of strings (empty if missing)
pub open spec fn strings_field(fs: Seq<(Seq<char>, JsonValue)>, key: Seq<char>) -> Result<
    Seq<Seq<char>>,
    Error,
> {
    match field_of(fs, key) {
        None => Ok(seq![]),
        Some(JsonValue::Array(vs)) => match string_items(vs) {
            Some(ss) => Ok(ss),
            None => Err(Error::InvalidType),
        },
        Some(_) => Err(Error::InvalidType),
    }
}

/// Views of strings
pub open spec fn views_of(v: Seq<String>) -> Seq<Seq<char>> {
    v.map_values(|s: String| s@)
}

proof fn lemma_string_items_prefix(m: Seq<JsonValue>, k: int)
    requires
        0 <= k <= m.len(),
        string_items(m.take(k)) is None,
    ensures
        string_items(m) is None,
    decreases m.len() - k,
{
    if k < m.len() {
        assert(m.take(k + 1).drop_last() =~= m.take(k));
        lemma_string_items_prefix(m, k + 1);
    } else {
        assert(m.take(k) =~= m);
    }
}

/// Read a field with an array of strings
pub fn read_strings_field(fs: &[(String, Value)], key: &str) -> (r: Result<Vec<String>, Error>)
    ensures
        match strings_field(fields_view(fs@), key@) {
            Ok(ss) => r matches Ok(x) && views_of(x@) == ss,
            Err(e) => r == Err::<Vec<String>, Error>(e),
        },
{
    let vs = match find_field(fs, key) {
        None => return Ok(Vec::new()),
        Some(Value::Array(vs)) => vs,
        Some(_) => return Err(Error::InvalidType),
    };
    let ghost m = crate::json::value::values_view(vs@);
    proof {
        crate::json::value::lemma_values_view(vs@);
    }
    let mut out: Vec<String> = Vec::new();
    let mut i: usize = 0;
    assert(m.take(0) =~= Seq::<JsonValue>::empty());
    while i < vs.len()
        invariant
            i <= vs@.len(),
            m == crate::json::value::values_view(vs@),
            field_of(fields_view(fs@), key@) == Some(JsonValue::Array(m)),
            m.len() == vs@.len(),
            forall|j: int| 0 <= j < vs@.len() ==> #[trigger] m[j] == value_view(vs@[j]),
            string_items(m.take(i as int)) == Some(views_of(out@)),
        decreases vs.len() - i,
    {
        assert(m.take(i + 1).drop_last() =~= m.take(i as int));
        assert(m.take(i + 1).last() == value_view(vs@[i as int]));
        match &vs[i] {
            Value::String(s) => {
                let ghost prev = out@;
                out.push(s.clone());
                assert(out@.drop_last() =~= prev);
                assert(views_of(out@) =~= views_of(prev).push(s@));
            },
            _ => {
                proof {
                    lemma_string_items_prefix(m, i + 1);
                }
                assert(field_of(fields_view(fs@), key@) == Some(JsonValue::Array(m)));
                return Err(Error::InvalidType);
            },
        }
        i = i + 1;
    }
    assert(m.take(i as int) =~= m);
    Ok(out)
}

/// `auth/getuser` response
#[derive(Debug)]
pub struct UserInformationResponse {
    pub uid: u32,
    pub firstname: String,
    pub lastname: String,
    pub memberid: u32,
    pub status: String,
    pub cid: u32,
    pub roles: Vec<String>,
    pub email: String,
}

/// The user information fields of a response object, each as its reader takes it
pub open spec fn user_information(fs: Seq<(Seq<char>, JsonValue)>) -> Result<
    (u32, Seq<char>, Seq<char>, u32, Seq<char>, u32, Seq<Seq<char>>, Seq<char>),
    Error,
> {
    match (
        u32_field(fs, "uid"@),
        string_field(fs, "firstname"@),
        string_field(fs, "lastname"@),
        u32_field(fs, "memberid"@),
        string_field(fs, "status"@),
        u32_field(fs, "cid"@),
        strings_field(fs, "roles"@),
        string_field(fs, "email"@),
    ) {
        (Ok(a), Ok(b), Ok(c), Ok(d), Ok(e), Ok(f), Ok(g), Ok(h)) => Ok((a, b, c, d, e, f, g, h)),
        _ => Err(Error::InvalidType),
    }
}

impl UserInformationResponse {
    /// Read the response object: user id, names, member id, status, client id, roles and email
    /// address (each empty or zero if missing); other fields are skipped
    pub fn read(reader: &mut Reader) -> (r: Result<Self, Error>)
        ensures
            match crate::json::reader::spec_read_object(old(reader).source(), old(reader).offset()) {
                Ok((fs, _)) => match user_information(fs) {
                    Ok((a, b, c, d, e, f, g, h)) => r matches Ok(x) && x.uid == a && x.firstname@
                        == b && x.lastname@ == c && x.memberid == d && x.status@ == e && x.cid
                        == f && views_of(x.roles@) == g && x.email@ == h,
                    Err(_) => r is Err,
                },
                Err(e) => r matches Err(x) && x == e,
            },
    {
        let fs = match reader.read_object() {
            Ok(fs) => fs,
            Err(e) => return Err(e),
        };
        let f = fs.as_slice();
        let uid = read_u32_field(f, "uid");
        let firstname = read_string_field(f, "firstname");
        let lastname = read_string_field(f, "lastname");
        let memberid = read_u32_field(f, "memberid");
        let status = read_string_field(f, "status");
        let cid = read_u32_field(f, "cid");
        let roles = read_strings_field(f, "roles");
        let email = read_string_field(f, "email");
        match (uid, firstname, lastname, memberid, status, cid, roles, email) {
            (Ok(uid), Ok(firstname), Ok(lastname), Ok(memberid), Ok(status), Ok(cid), Ok(roles), Ok(
                email,
            )) => Ok(UserInformationResponse { uid, firstname, lastname, memberid, status, cid, roles, email }),
            _ => Err(Error::InvalidType),
        }
    }
}

} // verus!
