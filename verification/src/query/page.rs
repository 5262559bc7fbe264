//! Pagination parameters.
use vstd::prelude::*;

verus! {

/// Pagination parameters: a positive page number and an optional size.
#[derive(Debug, Clone, Copy, PartialEq, Eq, Hash)]
pub struct Page {
    /// The page number; never zero.
    pub number: u64,
    /// The page size, when one was requested.
    pub size: Option<u64>,
}

impl Page {
    /// Builds pagination parameters, normalizing a page number of zero to
    /// one.
    pub fn new(number: u64, size: Option<u64>) -> (r: Page)
        ensures
            r.number == if number > 0 {
                number
            } else {
                1u64
            },
            r.size == size,
    {
        let number = if number > 0 {
            number
        } else {
            1
        };
        Page { number, size }
    }

    /// True when encoding the page emits nothing: page one with no size is
    /// the default.
    pub open spec fn is_default(&self) -> bool {
        self.number == 1 && self.size is None
    }
}

impl Default for Page {
    /// The default page: number one, no size.
    fn default() -> (r: Page)
        ensures
            r.number == 1 && r.size is None,
    {
        Page { number: 1, size: None }
    }
}

} // verus!
