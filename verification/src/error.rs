//! Main error type: what went wrong and, where known, whose action caused it

use crate::util::decimal_string;
use crate::text::{ascii_chars, decimal_digits};
use vstd::prelude::*;
use vstd::string::StringExecFns;

verus! {

/// Error kind with optional embedded causing error
#[derive(Debug)]
pub enum ErrorKind {
    /// Display output error
    DisplayError,
    /// NFC reader error
    NFCError(crate::pn532::Error),
    /// Vereinsflieger API error
    VereinsfliegerError(crate::vereinsflieger::Error),
    /// OTA error
    Ota(crate::ota::Error),
    /// User cancel request
    Cancel,
    /// User interaction timeout
    UserTimeout,
    /// No network connection
    NoNetwork,
    /// Current time is required but not set
    CurrentTimeNotSet,
    /// The specified article was not found
    ArticleNotFound,
}

/// Main error type
#[derive(Debug)]
pub struct Error {
    /// Error kind with optional embedded causing error
    kind: ErrorKind,
    /// Optional user whose action caused the error
    user_id: Option<u32>,
}

impl Error {
    /// Error kind
    pub closed spec fn spec_kind(&self) -> ErrorKind {
        self.kind
    }

    /// User whose action caused the error
    pub closed spec fn spec_user(&self) -> Option<u32> {
        self.user_id
    }

    /// Error of the given kind, not associated with a user
    pub fn from_kind(kind: ErrorKind) -> (r: Self)
        ensures
            r.spec_kind() == kind,
            r.spec_user() is None,
    {
        Error { kind, user_id: None }
    }

    /// Error kind
    pub fn kind(&self) -> (r: &ErrorKind)
        ensures
            *r == self.spec_kind(),
    {
        &self.kind
    }

    /// True if user cancelled an action
    pub fn is_cancel(&self) -> (r: bool)
        ensures
            r == (self.spec_kind() is Cancel),
    {
        match self.kind {
            ErrorKind::Cancel => true,
            _ => false,
        }
    }

    /// True if user interaction timed out
    pub fn is_user_timeout(&self) -> (r: bool)
        ensures
            r == (self.spec_kind() is UserTimeout),
    {
        match self.kind {
            ErrorKind::UserTimeout => true,
            _ => false,
        }
    }

    /// User whose action caused the error, if any
    pub fn user_id(&self) -> (r: Option<u32>)
        ensures
            r == self.spec_user(),
    {
        self.user_id
    }

    /// The outcome of an action taken for a user: an error is associated with that user
    pub fn try_with<T>(user_id: u32, result: Result<T, Self>) -> (r: Result<T, Self>)
        ensures
            match result {
                Ok(v) => r == Ok::<T, Self>(v),
                Err(e) => r matches Err(x) && x.spec_kind() == e.spec_kind() && x.spec_user()
                    == Some(user_id),
            },
    {
        match result {
            Ok(v) => Ok(v),
            Err(e) => Err(Error { kind: e.kind, user_id: Some(user_id) }),
        }
    }
}

/// Text of a PN532 error
pub open spec fn pn532_error_text(e: crate::pn532::Error) -> Seq<char> {
    match e {
        crate::pn532::Error::BadAck => "Bad ACK"@,
        crate::pn532::Error::BadResponseFrame => "Bad response frame"@,
        crate::pn532::Error::Syntax => "Syntax error"@,
        crate::pn532::Error::CrcError => "CRC error"@,
        crate::pn532::Error::BufTooSmall => "Buffer too small"@,
        crate::pn532::Error::TimeoutAck => "ACK timeout"@,
        crate::pn532::Error::TimeoutResponse => "Response timeout"@,
    }
}

/// Text of an OTA error
pub open spec fn ota_error_text(e: crate::ota::Error) -> Seq<char> {
    match e {
        crate::ota::Error::MalformedRedirect => "Malformed redirect"@,
        crate::ota::Error::TooManyRedirects => "Too many redirects"@,
        crate::ota::Error::RequestFailed(s) => "Request failed ("@ + ascii_chars(
            decimal_digits(s as nat),
        ) + ")"@,
        crate::ota::Error::UnableToQueryLatestRelease => "Unable to query latest release"@,
        crate::ota::Error::UnableToFetchChecksum => "Unable to fetch checksum"@,
        crate::ota::Error::FlashingFailed => "Flashing failed"@,
        crate::ota::Error::ChecksumMismatch => "Checksum mismatch"@,
        crate::ota::Error::Timeout => "Timeout"@,
    }
}

/// Text of a PN532 error
pub fn pn532_error_message(e: crate::pn532::Error) -> (r: String)
    ensures
        r@ == pn532_error_text(e),
{
    match e {
        crate::pn532::Error::BadAck => String::from_str("Bad ACK"),
        crate::pn532::Error::BadResponseFrame => String::from_str("Bad response frame"),
        crate::pn532::Error::Syntax => String::from_str("Syntax error"),
        crate::pn532::Error::CrcError => String::from_str("CRC error"),
        crate::pn532::Error::BufTooSmall => String::from_str("Buffer too small"),
        crate::pn532::Error::TimeoutAck => String::from_str("ACK timeout"),
        crate::pn532::Error::TimeoutResponse => String::from_str("Response timeout"),
    }
}

/// Text of an OTA error
pub fn ota_error_message(e: crate::ota::Error) -> (r: String)
    ensures
        r@ == ota_error_text(e),
{
    match e {
        crate::ota::Error::MalformedRedirect => String::from_str("Malformed redirect"),
        crate::ota::Error::TooManyRedirects => String::from_str("Too many redirects"),
        crate::ota::Error::RequestFailed(s) => {
            let mut out = String::from_str("Request failed (");
            let n = decimal_string(s as u64);
            out.append(n.as_str());
            out.append(")");
            out
        },
        crate::ota::Error::UnableToQueryLatestRelease => String::from_str(
            "Unable to query latest release",
        ),
        crate::ota::Error::UnableToFetchChecksum => String::from_str("Unable to fetch checksum"),
        crate::ota::Error::FlashingFailed => String::from_str("Flashing failed"),
        crate::ota::Error::ChecksumMismatch => String::from_str("Checksum mismatch"),
        crate::ota::Error::Timeout => String::from_str("Timeout"),
    }
}

/// Text of an error
pub open spec fn kind_text(k: ErrorKind) -> Seq<char> {
    match k {
        ErrorKind::DisplayError => "Display error"@,
        ErrorKind::NFCError(e) => "NFC: "@ + pn532_error_text(e),
        ErrorKind::VereinsfliegerError(e) => "Vereinsflieger: "@ + crate::vereinsflieger::error_text(e),
        ErrorKind::Ota(e) => "OTA: "@ + ota_error_text(e),
        ErrorKind::Cancel => "User cancelled"@,
        ErrorKind::UserTimeout => "Timeout waiting for input"@,
        ErrorKind::NoNetwork => "No network connection"@,
        ErrorKind::CurrentTimeNotSet => "Unknown current time"@,
        ErrorKind::ArticleNotFound => "Article not found"@,
    }
}

impl ErrorKind {
    /// Text describing the error
    pub fn message(&self) -> (r: String)
        ensures
            r@ == kind_text(*self),
    {
        match self {
            ErrorKind::DisplayError => String::from_str("Display error"),
            ErrorKind::NFCError(e) => {
                let mut out = String::from_str("NFC: ");
                let m = pn532_error_message(*e);
                out.append(m.as_str());
                out
            },
            ErrorKind::VereinsfliegerError(e) => {
                let mut out = String::from_str("Vereinsflieger: ");
                let m = e.message();
                out.append(m.as_str());
                out
            },
            ErrorKind::Ota(e) => {
                let mut out = String::from_str("OTA: ");
                let m = ota_error_message(*e);
                out.append(m.as_str());
                out
            },
            ErrorKind::Cancel => String::from_str("User cancelled"),
            ErrorKind::UserTimeout => String::from_str("Timeout waiting for input"),
            ErrorKind::NoNetwork => String::from_str("No network connection"),
            ErrorKind::CurrentTimeNotSet => String::from_str("Unknown current time"),
            ErrorKind::ArticleNotFound => String::from_str("Article not found"),
        }
    }
}

} // verus!
