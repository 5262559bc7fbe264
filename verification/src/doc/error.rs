//! Error objects carried by error documents.
use vstd::prelude::*;

use crate::doc::link::Link;
use crate::trusted::{reason_of, reason_phrase};
use crate::value::collections::map::OrderedMap;
use crate::value::fields::Key;
use crate::value::value::Value;

verus! {

/// References to the source of an error.
#[derive(Debug, PartialEq, Eq, Default)]
pub struct ErrorSource {
    /// The query parameter that caused the error, if any.
    pub parameter: Option<String>,
    /// A JSON pointer to the entity that caused the error, if any.
    pub pointer: Option<String>,
}

impl ErrorSource {
    /// Builds a source from the offending parameter and pointer.
    pub fn new(parameter: Option<String>, pointer: Option<String>) -> (r: ErrorSource)
        ensures
            r.parameter == parameter,
            r.pointer == pointer,
    {
        ErrorSource { parameter, pointer }
    }
}

/// Information about a problem encountered while performing an operation.
#[derive(Debug, PartialEq)]
pub struct ErrorObject {
    /// An application-specific error code.
    pub code: Option<String>,
    /// A human-readable explanation of this occurrence of the problem.
    pub detail: Option<String>,
    /// A unique identifier for this occurrence of the problem.
    pub id: Option<String>,
    /// Relevant links.
    pub links: OrderedMap<Key, Link>,
    /// Non-standard meta information.
    pub meta: OrderedMap<Key, Value>,
    /// The source of the error.
    pub source: Option<ErrorSource>,
    /// The HTTP status code applicable to this problem.
    pub status: Option<u16>,
    /// A short, human-readable summary of the problem.
    pub title: Option<String>,
}

impl ErrorObject {
    /// Builds an error object for the given status; the title defaults to
    /// the status's canonical reason phrase, when the status is given and
    /// known.
    pub fn new(status: Option<u16>) -> (r: ErrorObject)
        ensures
            r.status == status,
            status matches Some(code) ==> ({
                &&& r.title is Some <==> reason_of(code) is Some
                &&& (r.title matches Some(t) ==> t@ == reason_of(code).unwrap())
            }),
            status is None ==> r.title is None,
            r.code is None && r.detail is None && r.id is None && r.source is None,
            r.links@ =~= Seq::<(Key, Link)>::empty(),
            r.meta@ =~= Seq::<(Key, Value)>::empty(),
    {
        let title = match status {
            Some(code) => reason_phrase(code),
            None => None,
        };
        ErrorObject {
            code: None,
            detail: None,
            id: None,
            links: OrderedMap::new(),
            meta: OrderedMap::new(),
            source: None,
            status,
            title,
        }
    }
}

} // verus!
