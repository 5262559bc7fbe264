//! Integer JSON numbers.
use vstd::prelude::*;

verus! {

/// How a number is held: either non-negative (as a `u64`) or negative (as
/// a negative `i64`).
#[derive(Debug, Clone, Copy, PartialEq, Eq, Hash)]
enum Repr {
    /// A number between `0` and `u64::MAX`.
    PosInt(u64),
    /// A number between `i64::MIN` and `-1`.
    NegInt(i64),
}

/// An integer JSON number between `i64::MIN` and `u64::MAX`.
#[derive(Debug, Clone, Copy, PartialEq, Eq, Hash)]
pub struct Number {
    repr: Repr,
}

impl View for Number {
    type V = int;

    closed spec fn view(&self) -> int {
        match self.repr {
            Repr::PosInt(n) => n as int,
            Repr::NegInt(n) => n as int,
        }
    }
}

impl Number {
    /// A negative number is always held in the negative variant.
    #[verifier::type_invariant]
    closed spec fn wf(&self) -> bool {
        self.repr matches Repr::NegInt(n) ==> n < 0
    }

    /// Every number lies between `i64::MIN` and `u64::MAX`.
    pub proof fn lemma_bounds(&self)
        ensures
            i64::MIN as int <= self@ <= u64::MAX as int,
    {
    }

    /// The number holding the given non-negative value.
    pub fn from_u64(n: u64) -> (r: Number)
        ensures
            r@ == n as int,
    {
        Number { repr: Repr::PosInt(n) }
    }

    /// The number holding the given value.
    pub fn from_i64(n: i64) -> (r: Number)
        ensures
            r@ == n as int,
    {
        if n >= 0 {
            Number { repr: Repr::PosInt(n as u64) }
        } else {
            Number { repr: Repr::NegInt(n) }
        }
    }

    /// The value as a `u64`, when it is non-negative.
    pub fn as_u64(&self) -> (r: Option<u64>)
        ensures
            r matches Some(n) ==> n as int == self@,
            r is Some <==> self@ >= 0,
    {
        proof {
            use_type_invariant(self);
        }
        match self.repr {
            Repr::PosInt(n) => Some(n),
            Repr::NegInt(_) => None,
        }
    }

    /// The value as an `i64`, when it fits.
    pub fn as_i64(&self) -> (r: Option<i64>)
        ensures
            r matches Some(n) ==> n as int == self@,
            r is Some <==> i64::MIN <= self@ <= i64::MAX,
    {
        match self.repr {
            Repr::PosInt(n) => if n <= (i64::MAX as u64) {
                Some(n as i64)
            } else {
                None
            },
            Repr::NegInt(n) => Some(n),
        }
    }

    /// True when the value is non-negative, so `as_u64` returns it.
    pub fn is_u64(&self) -> (r: bool)
        ensures
            r == (self@ >= 0),
    {
        proof {
            use_type_invariant(self);
        }
        match self.repr {
            Repr::PosInt(_) => true,
            Repr::NegInt(_) => false,
        }
    }

    /// True when the value fits an `i64`, so `as_i64` returns it.
    pub fn is_i64(&self) -> (r: bool)
        ensures
            r == (i64::MIN <= self@ <= i64::MAX),
    {
        match self.repr {
            Repr::PosInt(n) => n <= (i64::MAX as u64),
            Repr::NegInt(_) => true,
        }
    }
}

} // verus!
