use vstd::prelude::*;
use vstd::string::StringExecFns;

use crate::text::{dec_digits, u16_string};

verus! {

/// Why a protocol exchange, a lookup, or input validation failed.
#[derive(Debug, Clone, PartialEq, Eq)]
pub enum Error {
    /// A socket failed: connect refused, reset, or unexpected end of stream.
    Io(String),
    /// The status payload was not parseable JSON.
    Json(String),
    /// The query challenge token was not a decimal number.
    Number(String),
    /// The status payload was not UTF-8.
    Utf8(String),
    /// A VarInt ran past five bytes.
    Varint,
    /// The status payload declared a size over the acceptable bound.
    PacketTooLarge,
    /// The requested port is below 1024.
    InvalidPort(u16),
    /// The resolver produced no address.
    ResolveFailed,
    /// The protocol exchange ran past its time budget.
    Timeout,
}

/// The human-readable form of an error, as stored in an offline envelope.
pub open spec fn error_text_spec(e: Error) -> Seq<char> {
    match e {
        Error::Io(m) => "io error: "@ + m@,
        Error::Json(m) => "json formatting error: "@ + m@,
        Error::Number(m) => "number error: "@ + m@,
        Error::Utf8(m) => "utf8 error: "@ + m@,
        Error::Varint => "invalid varint"@,
        Error::PacketTooLarge => "packet too large"@,
        Error::InvalidPort(p) => "invalid port: "@ + dec_digits(p as nat),
        Error::ResolveFailed => "failed to resolve host"@,
        Error::Timeout => "timed out"@,
    }
}

impl Error {
    /// Render the error as the text kept in an envelope's error field.
    pub fn text(&self) -> (r: String)
        ensures
            r@ == error_text_spec(*self),
    {
        match self {
            Error::Io(m) => {
                let mut s = "io error: ".to_owned();
                s.append(m.as_str());
                s
            },
            Error::Json(m) => {
                let mut s = "json formatting error: ".to_owned();
                s.append(m.as_str());
                s
            },
            Error::Number(m) => {
                let mut s = "number error: ".to_owned();
                s.append(m.as_str());
                s
            },
            Error::Utf8(m) => {
                let mut s = "utf8 error: ".to_owned();
                s.append(m.as_str());
                s
            },
            Error::Varint => "invalid varint".to_owned(),
            Error::PacketTooLarge => "packet too large".to_owned(),
            Error::InvalidPort(p) => {
                let mut s = "invalid port: ".to_owned();
                let digits = u16_string(*p);
                s.append(digits.as_str());
                s
            },
            Error::ResolveFailed => "failed to resolve host".to_owned(),
            Error::Timeout => "timed out".to_owned(),
        }
    }
}

} // verus!
