//! Information about the specification version a document was created with.
use vstd::prelude::*;

use crate::error::Error;
use crate::value::collections::map::OrderedMap;
use crate::value::fields::Key;
use crate::value::value::Value;

verus! {

/// The version of the specification. Only version 1.0 is recognized.
#[derive(Debug, Clone, Copy, PartialEq, Eq, Structural, Hash)]
pub enum Version {
    /// Version 1.0.
    V1,
}

impl Version {
    /// Parses a version string; only `"1.0"` is supported.
    pub fn from_str(value: &str) -> (r: Result<Version, Error>)
        ensures
            r is Ok <==> value@ == "1.0"@,
            r matches Ok(v) ==> v == Version::V1,
            r matches Err(e) ==> (e matches Error::UnsupportedVersion(s) && s@ == value@),
    {
        if crate::query::codec::str_is(value, "1.0") {
            Ok(Version::V1)
        } else {
            Err(Error::unsupported_version(value))
        }
    }

    /// The version's text.
    pub fn as_str(&self) -> (r: &'static str)
        ensures
            r@ == "1.0"@,
    {
        "1.0"
    }
}

impl Default for Version {
    /// The default version is the latest supported one.
    fn default() -> (r: Version)
        ensures
            r == Version::V1,
    {
        Version::V1
    }
}

/// Information about this implementation of the specification.
#[derive(Debug, PartialEq)]
pub struct JsonApi {
    /// Non-standard meta information.
    pub meta: OrderedMap<Key, Value>,
    /// The supported specification version.
    pub version: Version,
}

impl JsonApi {
    /// Builds the object for the given version, with no meta information.
    pub fn new(version: Version) -> (r: JsonApi)
        ensures
            r.version == version,
            r.meta@ =~= Seq::<(Key, Value)>::empty(),
    {
        JsonApi { meta: OrderedMap::new(), version }
    }
}

impl Default for JsonApi {
    /// The default object names the latest supported version.
    fn default() -> (r: JsonApi)
        ensures
            r.version == Version::V1,
            r.meta@ =~= Seq::<(Key, Value)>::empty(),
    {
        JsonApi::new(Version::V1)
    }
}

} // verus!
