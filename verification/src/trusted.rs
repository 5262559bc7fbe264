//! Contracts assumed of standard-library functions that vstd does not
//! specify, and wrappers around the outside crates this library calls.
use vstd::prelude::*;

verus! {

/// Relies on `String::push`: appends one character to the string.
pub assume_specification[ std::string::String::push ](s: &mut std::string::String, c: char)
    ensures
        final(s)@ == old(s)@.push(c),
;

/// Relies on `core::str::from_utf8`: it returns `Ok`, borrowing the same
/// bytes as text, exactly when the bytes are valid UTF-8.
#[verifier::external_body]
pub(crate) fn utf8_to_string(v: &[u8]) -> (r: Option<String>)
    ensures
        r is Some <==> vstd::utf8::valid_utf8(v@),
        r matches Some(s) ==> vstd::utf8::encode_utf8(s@) == v@,
{
    match core::str::from_utf8(v) {
        Ok(s) => Some(s.to_string()),
        Err(_) => None,
    }
}

/// Relies on `char::encode_utf8`: it writes the UTF-8 encoding of the
/// character, between one and four bytes.
#[verifier::external_body]
pub(crate) fn char_utf8_bytes(c: char) -> (r: Vec<u8>)
    ensures
        r@ == vstd::utf8::encode_scalar(c as u32),
{
    let mut buf = [0u8; 4];
    let s = c.encode_utf8(&mut buf);
    s.as_bytes().to_vec()
}

/// The normalized text of a URI, when the text parses as one. The result
/// depends on the text alone.
pub uninterp spec fn uri_of(s: Seq<char>) -> Option<Seq<char>>;

/// Relies on `http::Uri`'s `FromStr` and `Display`: parsing accepts exactly
/// the texts that are URIs, and displaying the parsed URI writes its
/// normalized text.
#[verifier::external_body]
pub(crate) fn normalize_uri(s: &str) -> (r: Option<String>)
    ensures
        r is Some <==> uri_of(s@) is Some,
        r matches Some(t) ==> t@ == uri_of(s@).unwrap(),
{
    match s.parse::<http::Uri>() {
        Ok(uri) => Some(uri.to_string()),
        Err(_) => None,
    }
}

/// The canonical reason phrase of an HTTP status code, when the code is a
/// known one. The result depends on the code alone.
pub uninterp spec fn reason_of(status: u16) -> Option<Seq<char>>;

/// Relies on `http::StatusCode::from_u16` and `canonical_reason`: a code
/// between 100 and 999 parses, and the canonical reason phrase is a fixed
/// table over the code.
#[verifier::external_body]
pub(crate) fn reason_phrase(status: u16) -> (r: Option<String>)
    ensures
        r is Some <==> reason_of(status) is Some,
        r matches Some(t) ==> t@ == reason_of(status).unwrap(),
{
    match http::StatusCode::from_u16(status) {
        Ok(code) => code.canonical_reason().map(|reason| reason.to_owned()),
        Err(_) => None,
    }
}

} // verus!
