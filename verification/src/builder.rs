//! Helpers for builders that accumulate optional fields.
//!
//! Only the plain take-style helpers live here: a helper that parses or
//! defaults a field through a generic standard-trait bound cannot be
//! verified, because a verified function may not call through an outside
//! trait.
use vstd::prelude::*;

use crate::error::Error;

verus! {

/// Takes an optional field out of a builder, leaving nothing behind.
pub fn optional<T>(value: &mut Option<T>) -> (r: Option<T>)
    ensures
        r == *old(value),
        *final(value) is None,
{
    let mut taken: Option<T> = None;
    core::mem::swap(value, &mut taken);
    taken
}

/// Takes a required field out of a builder, failing with a missing-field
/// error naming the field when nothing was set.
pub fn required<T>(name: &str, value: &mut Option<T>) -> (r: Result<T, Error>)
    ensures
        *final(value) is None,
        *old(value) matches Some(v) ==> (r matches Ok(taken) && taken == v),
        *old(value) is None ==> (r matches Err(e) && e matches Error::MissingField(n) && n@
            == name@),
    {
    let mut taken: Option<T> = None;
    core::mem::swap(value, &mut taken);
    match taken {
        Some(v) => Ok(v),
        None => Err(Error::missing_field(name)),
    }
}

} // verus!
