//! The errors a request can end in.

use vstd::prelude::*;
use vstd::string::StringExecFns;

verus! {

#[derive(Debug, PartialEq, Eq)]
pub enum Error {
    /// The wallet identifier is not a valid address.
    InvalidAddress,
    /// A page range whose end lies before its start.
    InvalidIndex,
    /// A timeframe that is malformed, not positive or beyond the hourly cap.
    InvalidTimeframe,
    /// A collaborator could not be reached; the reason is attached.
    FetchError(String),
    /// A collaborator answered with something that could not be read.
    ParseError(String),
    /// A collaborator refused the request for now.
    TooManyRequests,
}

impl Error {
    /// The text shown to a user for this error.
    pub open spec fn message_spec(self) -> Seq<char> {
        match self {
            Error::InvalidAddress => "Invalid address"@,
            Error::InvalidIndex => "Invalid index"@,
            Error::InvalidTimeframe => "Invalid timeframe"@,
            Error::FetchError(msg) => "Fetch error: "@ + msg@,
            Error::ParseError(msg) => "Parse error: "@ + msg@,
            Error::TooManyRequests => "Too many requests"@,
        }
    }

    pub fn message(&self) -> (text: String)
        ensures
            text@ == self.message_spec(),
    {
        match self {
            Error::InvalidAddress => String::from_str("Invalid address"),
            Error::InvalidIndex => String::from_str("Invalid index"),
            Error::InvalidTimeframe => String::from_str("Invalid timeframe"),
            Error::FetchError(msg) => String::from_str("Fetch error: ").concat(msg.as_str()),
            Error::ParseError(msg) => String::from_str("Parse error: ").concat(msg.as_str()),
            Error::TooManyRequests => String::from_str("Too many requests"),
        }
    }
}

} // verus!
