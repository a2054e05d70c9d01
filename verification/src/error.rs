//! A small error value carrying a message, a numeric code, and a fatality flag.

use vstd::prelude::*;

verus! {

/// An error raised by the backend: a human-readable message, a process exit
/// code, and whether the error should abort the process.
pub struct Error {
    error: String,
    code: u8,
    fatal: bool,
}

impl Error {
    /// The message this error carries.
    pub closed spec fn spec_error(&self) -> Seq<char> {
        self.error@
    }

    /// The exit code this error carries.
    pub closed spec fn spec_code(&self) -> u8 {
        self.code
    }

    /// Whether this error should abort the process.
    pub closed spec fn spec_fatal(&self) -> bool {
        self.fatal
    }

    /// Build a non-fatal error from a message and a code.
    pub fn new(error: String, code: u8) -> (r: Self)
        ensures
            r.spec_error() == error@,
            r.spec_code() == code,
            !r.spec_fatal(),
    {
        Self { error, code, fatal: false }
    }

    /// Mark this error fatal, keeping its message and code.
    pub fn fatal(self) -> (r: Self)
        ensures
            r.spec_error() == self.spec_error(),
            r.spec_code() == self.spec_code(),
            r.spec_fatal(),
    {
        Self { fatal: true, ..self }
    }

    /// Whether this error should abort the process.
    pub fn is_fatal(&self) -> (r: bool)
        ensures
            r == self.spec_fatal(),
    {
        self.fatal
    }

    /// The exit code to use when the error aborts the process.
    pub fn code(&self) -> (r: u8)
        ensures
            r == self.spec_code(),
    {
        self.code
    }

    /// Render the error as a line of text.
    pub fn message(&self) -> (r: String)
        ensures
            r@ == "Error "@ + self.spec_error() + "."@,
    {
        let mut r = String::from_str("Error ");
        r.append(self.error.as_str());
        r.append(".");
        r
    }
}

} // verus!
