//! Sort instructions.
use vstd::prelude::*;

use crate::error::Error;
use crate::value::collections::keyed::Keyed;
use crate::value::fields::{path_join, path_parse, path_wf, Path};

verus! {

/// The direction of a sort instruction.
#[derive(Debug, Clone, Copy, PartialEq, Eq, Hash, Structural)]
pub enum Direction {
    /// Ascending.
    Asc,
    /// Descending.
    Desc,
}

impl Direction {
    /// True when the direction is ascending.
    pub fn is_asc(&self) -> (r: bool)
        ensures
            r == (*self == Direction::Asc),
    {
        *self == Direction::Asc
    }

    /// True when the direction is descending.
    pub fn is_desc(&self) -> (r: bool)
        ensures
            r == (*self == Direction::Desc),
    {
        *self == Direction::Desc
    }

    /// The opposite direction.
    pub fn reverse(&self) -> (r: Direction)
        ensures
            r == (if *self == Direction::Asc {
                Direction::Desc
            } else {
                Direction::Asc
            }),
    {
        match *self {
            Direction::Asc => Direction::Desc,
            Direction::Desc => Direction::Asc,
        }
    }
}

/// What parsing a sort instruction returns: a leading `-` means descending,
/// and the rest is parsed as a path.
pub open spec fn sort_parse(s: Seq<char>) -> Option<(Seq<Seq<char>>, bool)> {
    if s.len() > 0 && s[0] == '-' {
        match path_parse(s.skip(1)) {
            Some(p) => Some((p, true)),
            None => None,
        }
    } else {
        match path_parse(s) {
            Some(p) => Some((p, false)),
            None => None,
        }
    }
}

/// The text of a sort instruction: the field path, prefixed with `-` when
/// descending.
pub open spec fn sort_encode(v: (Seq<Seq<char>>, bool)) -> Seq<char> {
    if v.1 {
        seq!['-'] + path_join(v.0)
    } else {
        path_join(v.0)
    }
}

/// A single sort instruction: a field path and a direction.
#[derive(Debug, PartialEq, Eq, Hash)]
pub struct Sort {
    /// The direction to sort by.
    pub direction: Direction,
    /// The path of the field to sort by.
    pub field: Path,
}

impl View for Sort {
    type V = (Seq<Seq<char>>, bool);

    open spec fn view(&self) -> (Seq<Seq<char>>, bool) {
        (self.field@, self.direction == Direction::Desc)
    }
}

impl Sort {
    /// Builds a sort instruction.
    pub fn new(field: Path, direction: Direction) -> (r: Sort)
        ensures
            r.field@ == field@ && r.direction == direction,
    {
        Sort { direction, field }
    }

    /// A copy of this instruction with the direction reversed.
    pub fn reverse(&self) -> (r: Sort)
        ensures
            r.field@ == self.field@,
            r.direction == (if self.direction == Direction::Asc {
                Direction::Desc
            } else {
                Direction::Asc
            }),
    {
        Sort { direction: self.direction.reverse(), field: self.field.clone() }
    }

    /// Parses a sort instruction: a leading `-` selects descending order,
    /// and the remainder is parsed as a field path.
    pub fn from_str(value: &str) -> (r: Result<Sort, Error>)
        ensures
            r is Ok <==> sort_parse(value@) is Some,
            r matches Ok(s) ==> s@ == sort_parse(value@).unwrap() && path_wf(s.field@),
    {
        let n = value.unicode_len();
        if n > 0 && value.get_char(0) == '-' {
            let rest = value.substring_char(1, n);
            proof {
                assert(rest@ =~= value@.skip(1));
            }
            match Path::from_str(rest) {
                Ok(field) => Ok(Sort::new(field, Direction::Desc)),
                Err(e) => Err(e),
            }
        } else {
            match Path::from_str(value) {
                Ok(field) => Ok(Sort::new(field, Direction::Asc)),
                Err(e) => Err(e),
            }
        }
    }

    /// The text of the instruction: the field path, prefixed with `-` when
    /// descending.
    pub fn to_string(&self) -> (r: String)
        ensures
            r@ == sort_encode(self@),
    {
        let mut out = String::new();
        if self.direction.is_desc() {
            out.push('-');
        }
        let field = self.field.to_string();
        out.append(field.as_str());
        proof {
            if self.direction == Direction::Desc {
                assert(out@ =~= sort_encode(self@));
            } else {
                assert(out@ =~= sort_encode(self@));
            }
        }
        out
    }
}

impl Clone for Sort {
    /// Cloning a sort instruction keeps its field and direction.
    fn clone(&self) -> (r: Sort)
        ensures
            r@ == self@,
            r.field@ == self.field@ && r.direction == self.direction,
    {
        Sort { direction: self.direction, field: self.field.clone() }
    }
}

impl Keyed for Sort {
    type Ident = (Seq<Seq<char>>, bool);

    /// A sort instruction's identity is its field path and direction.
    open spec fn key_ident(&self) -> (Seq<Seq<char>>, bool) {
        self@
    }

    fn key_eq(&self, other: &Sort) -> (r: bool) {
        self.field.key_eq(&other.field) && self.direction.is_desc() == other.direction.is_desc()
    }

    proof fn lemma_cloned_ident(a: &Sort, b: &Sort) {
        if a != b {
            assert(call_ensures(Sort::clone, (a,), *b));
        }
    }
}

/// Round trip: parsing the text of a sort instruction over a non-empty path
/// of well-formed keys gives the instruction back.
pub proof fn lemma_sort_round_trip(v: (Seq<Seq<char>>, bool))
    requires
        v.0.len() > 0,
        path_wf(v.0),
    ensures
        sort_parse(sort_encode(v)) == Some(v),
{
    crate::value::fields::lemma_path_round_trip(v.0);
    let joined = path_join(v.0);
    assert(joined.len() > 0 && joined[0] != '-') by {
        assert(crate::value::fields::key_wf(v.0[0]));
        assert(v.0[0].len() > 0);
        reveal_with_fuel(crate::value::fields::path_join_from, 2);
        assert(joined[0] == v.0[0][0]);
    }
    if v.1 {
        let s = sort_encode(v);
        assert(s[0] == '-');
        assert(s.skip(1) =~= joined);
    }
}

} // verus!
