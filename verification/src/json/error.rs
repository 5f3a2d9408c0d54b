//! JSON reader/writer errors

use vstd::prelude::*;

verus! {

/// JSON reader/writer error
#[derive(Debug, Clone, Copy, PartialEq, Eq)]
pub enum Error {
    /// Premature end of input
    Eof,
    /// Unexpected character
    Unexpected(char),
    /// Number doesn't fit the requested integer type
    NumberTooLarge,
    /// Value has the wrong type
    InvalidType,
}

/// Error for an unexpected byte, shown as the character with that code (`char::from(u8)`)
pub open spec fn spec_unexpected(b: u8) -> Error {
    Error::Unexpected(b as char)
}

impl Error {
    /// Error for an unexpected byte
    pub fn unexpected(ch: u8) -> (e: Self)
        ensures
            e == spec_unexpected(ch),
    {
        Error::Unexpected(ch as char)
    }

    /// Error for a failed value conversion
    pub fn from_value_error(_err: crate::json::value::TryFromValueError) -> (e: Self)
        ensures
            e == Error::InvalidType,
    {
        Error::InvalidType
    }

    /// Text describing the error
    pub fn message(&self) -> (s: String)
        ensures
            s@ == spec_error_message(*self),
    {
        match self {
            Error::Eof => String::from_str("Premature EOF"),
            Error::Unexpected(ch) => {
                let mut s = String::from_str("Unexpected `");
                crate::text::string_push(&mut s, *ch);
                crate::text::string_push(&mut s, '`');
                s
            },
            Error::NumberTooLarge => String::from_str("Number too large"),
            Error::InvalidType => String::from_str("Invalid type"),
        }
    }
}

/// Text describing an error, as its `Display` implementation writes it
pub open spec fn spec_error_message(e: Error) -> Seq<char> {
    match e {
        Error::Eof => "Premature EOF"@,
        Error::Unexpected(ch) => "Unexpected `"@.push(ch).push('`'),
        Error::NumberTooLarge => "Number too large"@,
        Error::InvalidType => "Invalid type"@,
    }
}

} // verus!
