//! Pagination and sort-direction values.
use vstd::prelude::*;

verus! {

/// A window over an ordered collection: page `number` (from 0) of `size` items.
pub struct Page {
    /// Page number (starting from 0)
    pub number: u32,
    /// Results per page
    pub size: u32,
}

impl Page {
    /// Index of the first item of this page in the ordered collection.
    pub open spec fn spec_offset(&self) -> nat {
        (self.number * self.size) as nat
    }

    /// The items of `s` that fall on this page: `[offset, offset + size)`, clipped to `s`.
    pub open spec fn window<A>(&self, s: Seq<A>) -> Seq<A> {
        let start = if self.spec_offset() < s.len() { self.spec_offset() } else { s.len() };
        let end = if self.spec_offset() + self.size < s.len() {
            (self.spec_offset() + self.size) as nat
        } else {
            s.len()
        };
        s.subrange(start as int, end as int)
    }

    /// Creates a new page.
    pub fn new(number: u32, size: u32) -> (r: Self)
        ensures
            r.number == number,
            r.size == size,
    {
        Self { number, size }
    }

    /// Calculates the offset of this page: `number * size`.
    pub fn offset(&self) -> (r: u32)
        requires
            self.number * self.size <= u32::MAX,
        ensures
            r == self.spec_offset(),
    {
        self.number * self.size
    }
}

/// Direction in which a listing is ordered.
#[derive(Clone, Copy, Debug, PartialEq, Eq, Structural)]
pub enum Sort {
    ASCENDING,
    DESCENDING,
}

} // verus!
