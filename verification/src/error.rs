//! The library's error type: a message together with the name of the error's
//! origin, kept as plain strings so callers can report failures without
//! consulting the component that raised them.

use vstd::prelude::*;
use vstd::string::StringExecFns;

verus! {

/// An error raised by this library or converted from a collaborator's
/// failure. It carries a human-readable message and the name of the
/// error's source.
pub struct Error {
    source: String,
    message: String,
}

impl Error {
    /// What the error reports, as a sequence of characters.
    pub closed spec fn message_spec(&self) -> Seq<char> {
        self.message@
    }

    /// Where the error came from, as a sequence of characters.
    pub closed spec fn source_spec(&self) -> Seq<char> {
        self.source@
    }

    /// Builds an error of the library's own, recording this crate as its
    /// source.
    pub fn new(message: &str) -> (r: Self)
        ensures
            r.message_spec() == message@,
            r.source_spec() == "min_auth::error::Error"@,
    {
        Self { source: String::from_str("min_auth::error::Error"), message: message.to_owned() }
    }

    /// The message the error was created with.
    pub fn message(&self) -> (r: &str)
        ensures
            r@ == self.message_spec(),
    {
        self.message.as_str()
    }

    /// The name of the component the error came from.
    pub fn source(&self) -> (r: &str)
        ensures
            r@ == self.source_spec(),
    {
        self.source.as_str()
    }
}

} // verus!
