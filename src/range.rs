use std::ops::{Range, RangeFrom, RangeFull, RangeTo};
use vstd::prelude::*;

verus! {

#[verifier::external_type_specification]
#[verifier::reject_recursive_types(Idx)]
pub struct ExRangeFrom<Idx>(RangeFrom<Idx>);

#[verifier::external_type_specification]
#[verifier::reject_recursive_types(Idx)]
pub struct ExRangeTo<Idx>(RangeTo<Idx>);

#[verifier::external_type_specification]
pub struct ExRangeFull(RangeFull);

/// A range of cluster indices in one of the forms `a..b`, `a..`, `..b` and `..`.
pub trait GraphemeRange {
    /// The first index of the range, in a text of `len` clusters.
    spec fn start_in(&self, len: int) -> int;

    /// The index just past the range, in a text of `len` clusters.
    spec fn end_in(&self, len: int) -> int;

    /// The first index and the index just past the range, in a text of `len` clusters.
    fn bounds(&self, len: usize) -> (r: (usize, usize))
        ensures
            r.0 == self.start_in(len as int),
            r.1 == self.end_in(len as int),
    ;
}

impl GraphemeRange for Range<usize> {
    open spec fn start_in(&self, len: int) -> int {
        self.start as int
    }

    open spec fn end_in(&self, len: int) -> int {
        self.end as int
    }

    fn bounds(&self, len: usize) -> (r: (usize, usize)) {
        (self.start, self.end)
    }
}

impl GraphemeRange for RangeFrom<usize> {
    open spec fn start_in(&self, len: int) -> int {
        self.start as int
    }

    open spec fn end_in(&self, len: int) -> int {
        len
    }

    fn bounds(&self, len: usize) -> (r: (usize, usize)) {
        (self.start, len)
    }
}

impl GraphemeRange for RangeTo<usize> {
    open spec fn start_in(&self, len: int) -> int {
        0
    }

    open spec fn end_in(&self, len: int) -> int {
        self.end as int
    }

    fn bounds(&self, len: usize) -> (r: (usize, usize)) {
        (0, self.end)
    }
}

impl GraphemeRange for RangeFull {
    open spec fn start_in(&self, len: int) -> int {
        0
    }

    open spec fn end_in(&self, len: int) -> int {
        len
    }

    fn bounds(&self, len: usize) -> (r: (usize, usize)) {
        (0, len)
    }
}

} // verus!
