//! The error type shared by every fallible operation of this crate.
use vstd::prelude::*;

verus! {

/// The reasons an operation of this crate can fail.
///
/// Every fallible operation surfaces the first failure verbatim; nothing is
/// retried or recovered internally.
#[derive(Debug, PartialEq, Eq, Clone)]
pub enum Error {
    /// A member name was empty, held a reserved character, or started or
    /// ended with `-`, `_` or a space. Carries the offending name.
    InvalidMemberName(String),
    /// A builder was finalized without a required field. Carries the field
    /// name.
    MissingField(String),
    /// A version string other than `"1.0"` was given. Carries the string.
    UnsupportedVersion(String),
    /// A link was built from text that does not parse as a URI. Carries the
    /// text.
    InvalidUri(String),
    /// A query string could not be decoded: malformed percent escapes became
    /// invalid UTF-8, a bracketed parameter was malformed, a parameter was
    /// unknown, or a page number did not parse. Carries a description.
    Query(String),
    /// A failure wrapped from the external JSON text codec. Carries a
    /// description.
    Json(String),
}

impl Error {
    /// Builds the error raised when a builder is finalized without the named
    /// required field.
    pub fn missing_field(name: &str) -> (r: Error)
        ensures
            r matches Error::MissingField(n) && n@ == name@,
    {
        Error::MissingField(name.to_owned())
    }

    /// Builds the error raised when a version string other than `"1.0"` is
    /// given.
    pub fn unsupported_version(version: &str) -> (r: Error)
        ensures
            r matches Error::UnsupportedVersion(v) && v@ == version@,
    {
        Error::UnsupportedVersion(version.to_owned())
    }
}

} // verus!
