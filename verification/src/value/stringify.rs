//! A specializable version of string conversion.
use vstd::prelude::*;

use crate::query::codec::dec_digits;
use crate::query::encode::int_text;

verus! {

/// A specializable version of `std::string::ToString` for the types a
/// resource identifier is commonly built from.
pub trait Stringify {
    /// The string representation of the value.
    fn stringify(&self) -> String;

    /// The string representation of the value as its UTF-8 bytes.
    fn to_bytes(&self) -> Vec<u8>;
}

impl Stringify for String {
    /// A string represents itself.
    fn stringify(&self) -> (r: String)
        ensures
            r@ == self@,
    {
        self.clone()
    }

    fn to_bytes(&self) -> (r: Vec<u8>)
        ensures
            r@ == vstd::utf8::encode_utf8(self@),
    {
        self.as_str().as_bytes_vec()
    }
}

impl Stringify for str {
    /// A string slice represents itself.
    fn stringify(&self) -> (r: String)
        ensures
            r@ == self@,
    {
        self.to_owned()
    }

    fn to_bytes(&self) -> (r: Vec<u8>)
        ensures
            r@ == vstd::utf8::encode_utf8(self@),
    {
        self.as_bytes_vec()
    }
}

impl Stringify for u64 {
    /// A number is represented by its decimal text.
    fn stringify(&self) -> (r: String)
        ensures
            r@ == dec_digits(*self as int),
    {
        crate::query::codec::fmt_u64(*self)
    }

    fn to_bytes(&self) -> (r: Vec<u8>)
        ensures
            r@ == vstd::utf8::encode_utf8(dec_digits(*self as int)),
    {
        let s = crate::query::codec::fmt_u64(*self);
        s.as_str().as_bytes_vec()
    }
}

impl Stringify for i64 {
    /// A number is represented by its decimal text, with a leading `-` when
    /// it is negative.
    fn stringify(&self) -> (r: String)
        ensures
            r@ == int_text(*self as int),
    {
        if *self >= 0 {
            crate::query::codec::fmt_u64(*self as u64)
        } else {
            let magnitude: u64 = if *self == i64::MIN {
                9223372036854775808u64
            } else {
                (-*self) as u64
            };
            let mut out = String::new();
            out.push('-');
            let digits = crate::query::codec::fmt_u64(magnitude);
            out.append(digits.as_str());
            proof {
                assert(out@ =~= int_text(*self as int));
            }
            out
        }
    }

    fn to_bytes(&self) -> (r: Vec<u8>)
        ensures
            r@ == vstd::utf8::encode_utf8(int_text(*self as int)),
    {
        let s = self.stringify();
        s.as_str().as_bytes_vec()
    }
}

} // verus!
