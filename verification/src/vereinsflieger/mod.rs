//! Vereinsflieger API: request and response data and the rules applied to them

pub mod proto_articles;
pub mod proto_auth;
pub mod proto_sale;
pub mod proto_user;

use crate::text::{ascii_chars, decimal_digits};
use crate::util::decimal_string;
use vstd::prelude::*;
use vstd::string::StringExecFns;

verus! {

/// Vereinsflieger API error (of the decisions made here; network errors are the caller's)
#[derive(Debug)]
pub enum Error {
    /// Request could not be built
    MalformedRequest,
    /// Request failed with the given HTTP status
    RequestFailed(u16),
    /// Response could not be parsed
    MalformedResponse,
    /// Streaming response could not be parsed
    MalformedResponseStream(crate::reader::Error),
    /// Timeout waiting for response
    Timeout,
    /// Not logged in
    NotLoggedIn,
}

/// Text of a Vereinsflieger API error
pub open spec fn error_text(e: Error) -> Seq<char> {
    match e {
        Error::MalformedRequest => "Malformed request"@,
        Error::RequestFailed(s) => "Request failed ("@ + ascii_chars(decimal_digits(s as nat))
            + ")"@,
        Error::MalformedResponse => "Malformed response"@,
        Error::MalformedResponseStream(_) => "Malformed response stream"@,
        Error::Timeout => "Timeout"@,
        Error::NotLoggedIn => "Not logged in"@,
    }
}

impl Error {
    /// Text describing the error
    pub fn message(&self) -> (r: String)
        ensures
            r@ == error_text(*self),
    {
        match self {
            Error::MalformedRequest => String::from_str("Malformed request"),
            Error::RequestFailed(s) => {
                let mut out = String::from_str("Request failed (");
                let n = decimal_string(*s as u64);
                out.append(n.as_str());
                out.append(")");
                out
            },
            Error::MalformedResponse => String::from_str("Malformed response"),
            Error::MalformedResponseStream(_) => String::from_str("Malformed response stream"),
            Error::Timeout => String::from_str("Timeout"),
            Error::NotLoggedIn => String::from_str("Not logged in"),
        }
    }
}

/// Vereinsflieger API client: credentials and the access token of the current session
#[derive(Debug)]
pub struct Vereinsflieger {
    pub username: String,
    pub password_md5: String,
    pub appkey: String,
    pub cid: Option<u32>,
    pub accesstoken: Option<String>,
}

/// What a check of the access token found
pub open spec fn token_check(result: Result<(), Error>) -> Result<bool, Error> {
    match result {
        Ok(()) => Ok(true),
        Err(Error::RequestFailed(401)) => Ok(false),
        Err(Error::NotLoggedIn) => Ok(false),
        Err(e) => Err(e),
    }
}

/// Checking the session: fetching the user information succeeded exactly when the session is
/// signed in; an expired token (HTTP 401) and a missing token both mean "not signed in", so
/// that a new token is fetched, and are no errors; any other failure is passed on unchanged
pub proof fn law_session_check(result: Result<(), Error>)
    ensures
        token_check(result) == Ok::<bool, Error>(true) <==> result is Ok,
        token_check(result) == Ok::<bool, Error>(false) <==> (result == Err::<(), Error>(
            Error::RequestFailed(401),
        ) || result == Err::<(), Error>(Error::NotLoggedIn)),
        token_check(result) matches Err(e) ==> result == Err::<(), Error>(e),
{
}

impl Vereinsflieger {
    /// Access token of the current session, if any
    pub open spec fn token(&self) -> Option<Seq<char>> {
        match self.accesstoken {
            Some(t) => Some(t@),
            None => None,
        }
    }

    /// Create new Vereinsflieger API client using the given credentials, not signed in
    pub fn new(username: &str, password_md5: &str, appkey: &str, cid: Option<u32>) -> (r: Self)
        ensures
            r.username@ == username@,
            r.password_md5@ == password_md5@,
            r.appkey@ == appkey@,
            r.cid == cid,
            r.token() is None,
    {
        Vereinsflieger {
            username: String::from_str(username),
            password_md5: String::from_str(password_md5),
            appkey: String::from_str(appkey),
            cid,
            accesstoken: None,
        }
    }

    /// Vereinsflieger API access token, or an error when not signed in
    pub fn accesstoken(&self) -> (r: Result<&str, Error>)
        ensures
            match self.token() {
                Some(t) => r matches Ok(x) && x@ == t,
                None => r matches Err(Error::NotLoggedIn),
            },
    {
        match &self.accesstoken {
            Some(t) => Ok(t.as_str()),
            None => Err(Error::NotLoggedIn),
        }
    }

    /// Take the result of fetching user information with the current access token: a valid
    /// token keeps the session, an expired one (HTTP 401) or none ends it, any other error is
    /// passed on. Returns whether the session is signed in.
    pub fn check_signed_in(&mut self, result: Result<(), Error>) -> (r: Result<bool, Error>)
        ensures
            match token_check(result) {
                Ok(b) => r == Ok::<bool, Error>(b) && final(self).token() == if b {
                    old(self).token()
                } else {
                    None
                },
                Err(e) => r == Err::<bool, Error>(e) && final(self).token() == old(self).token(),
            },
    {
        match result {
            Ok(()) => Ok(true),
            Err(Error::RequestFailed(status)) => {
                if status == 401 {
                    self.accesstoken = None;
                    Ok(false)
                } else {
                    Err(Error::RequestFailed(status))
                }
            },
            Err(Error::NotLoggedIn) => {
                self.accesstoken = None;
                Ok(false)
            },
            Err(e) => Err(e),
        }
    }

    /// Whether a new access token needs to be fetched and signed in with
    pub fn needs_sign_in(&self) -> (r: bool)
        ensures
            r == (self.token() is None),
    {
        self.accesstoken.is_none()
    }

    /// Use a newly fetched access token
    pub fn set_accesstoken(&mut self, accesstoken: String)
        ensures
            final(self).token() == Some(accesstoken@),
            final(self).username == old(self).username,
            final(self).cid == old(self).cid,
    {
        self.accesstoken = Some(accesstoken);
    }
}

} // verus!
