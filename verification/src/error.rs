//! The error taxonomy of the parsing operations.

use vstd::prelude::*;
use vstd::string::StringExecFns;

verus! {

/// A reportable failure of a parse or format operation.  Every public
/// operation returns one of these instead of panicking on malformed input.
#[derive(Debug)]
pub enum Error {
    /// The text matches no recognized duration grammar, or a recognized
    /// match yielded no valid duration.  Carries the offending text.
    InvalidDuration(String),
    /// A clock-form field is not a valid time value.  Carries the
    /// offending text.
    InvalidTime(String),
    /// A unit spelling does not map to a known unit kind.  Carries the
    /// offending unit text.
    InvalidUnit(String),
    /// A catch-all for conditions not covered above.
    Error(String),
}

impl Error {
    /// The human-readable message of this error.
    pub open spec fn spec_message(&self) -> Seq<char> {
        match self {
            Error::InvalidDuration(_) => "invalid duration"@,
            Error::InvalidTime(_) => "invalid time"@,
            Error::InvalidUnit(v) => "invalid unit: "@ + v@,
            Error::Error(v) => v@,
        }
    }

    pub fn error(value: &str) -> (r: Error)
        ensures
            r matches Error::Error(v) && v@ == value@,
    {
        Error::Error(value.to_owned())
    }

    pub fn invalid_duration(value: &str) -> (r: Error)
        ensures
            r matches Error::InvalidDuration(v) && v@ == value@,
    {
        Error::InvalidDuration(value.to_owned())
    }

    pub fn invalid_time(value: &str) -> (r: Error)
        ensures
            r matches Error::InvalidTime(v) && v@ == value@,
    {
        Error::InvalidTime(value.to_owned())
    }

    pub fn invalid_unit(value: &str) -> (r: Error)
        ensures
            r matches Error::InvalidUnit(v) && v@ == value@,
    {
        Error::InvalidUnit(value.to_owned())
    }

    /// Render this error as text, as a reporting caller would show it.
    pub fn message(&self) -> (r: String)
        ensures
            r@ == self.spec_message(),
    {
        match self {
            Error::InvalidDuration(_) => "invalid duration".to_owned(),
            Error::InvalidTime(_) => "invalid time".to_owned(),
            Error::InvalidUnit(v) => {
                let mut m = "invalid unit: ".to_owned();
                m.append(v.as_str());
                m
            },
            Error::Error(v) => v.clone(),
        }
    }
}

/// Does `e` report the whole input `s` as an invalid duration?
pub open spec fn is_invalid_duration(e: Error, s: Seq<char>) -> bool {
    e matches Error::InvalidDuration(v) && v@ == s
}

} // verus!
