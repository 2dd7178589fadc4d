//! The error that the library's fallible functions return.
use vstd::prelude::*;

verus! {

/// What went wrong. Every variant carries the message to show.
#[derive(Clone, Debug, PartialEq, Eq)]
pub enum ErrorKind {
    /// A time bound was neither one of the symbolic bounds nor a date.
    FromStr(String),
    /// An email alias lacked the `=` between its two addresses.
    EmailAlias(String),
    /// A branch type was neither `local` nor `remote`.
    BranchType(String),
    /// A number of minutes was not a decimal number that fits in 32 bits.
    Minutes(String),
    /// An output format was neither `stdout` nor `json`.
    OutputFormat(String),
    /// The pattern that selects references could not be compiled.
    Pattern(String),
    /// A time bound named a day that the calendar does not hold.
    Calendar(String),
    /// A commit that counts was made at a time that the calendar does not
    /// hold.
    Timestamp(String),
}

#[derive(Clone, Debug, PartialEq, Eq)]
pub struct Error(pub ErrorKind);

impl ErrorKind {
    /// The message that this kind carries.
    pub open spec fn text(&self) -> Seq<char> {
        match self {
            ErrorKind::FromStr(m) => m@,
            ErrorKind::EmailAlias(m) => m@,
            ErrorKind::BranchType(m) => m@,
            ErrorKind::Minutes(m) => m@,
            ErrorKind::OutputFormat(m) => m@,
            ErrorKind::Pattern(m) => m@,
            ErrorKind::Calendar(m) => m@,
            ErrorKind::Timestamp(m) => m@,
        }
    }
}

impl From<String> for ErrorKind {
    fn from(e: String) -> (kind: ErrorKind) {
        ErrorKind::FromStr(e)
    }
}

impl vstd::std_specs::convert::FromSpecImpl<String> for ErrorKind {
    open spec fn obeys_from_spec() -> bool {
        true
    }

    open spec fn from_spec(e: String) -> ErrorKind {
        ErrorKind::FromStr(e)
    }
}

impl Error {
    /// Wraps whatever converts into an `ErrorKind`; a `String` becomes the
    /// message of a `FromStr` error.
    pub fn new<K: Into<ErrorKind>>(e: K) -> (error: Error)
        ensures
            call_ensures(<K as Into<ErrorKind>>::into, (e,), error.0),
    {
        Error(e.into())
    }

    /// The message of this error.
    pub open spec fn text(&self) -> Seq<char> {
        self.0.text()
    }

    /// The message of this error, as a text of its own.
    pub fn message(&self) -> (m: String)
        ensures
            m@ == self.text(),
    {
        match &self.0 {
            ErrorKind::FromStr(m) => m.clone(),
            ErrorKind::EmailAlias(m) => m.clone(),
            ErrorKind::BranchType(m) => m.clone(),
            ErrorKind::Minutes(m) => m.clone(),
            ErrorKind::OutputFormat(m) => m.clone(),
            ErrorKind::Pattern(m) => m.clone(),
            ErrorKind::Calendar(m) => m.clone(),
            ErrorKind::Timestamp(m) => m.clone(),
        }
    }
}

} // verus!
