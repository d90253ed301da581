//! Ranges of token quantities, with the bound semantics of `std::ops::RangeBounds<u64>`.

use vstd::prelude::*;

verus! {

/// One end of a range of `u64` values.
#[derive(Clone, Copy, Debug, PartialEq, Eq, Structural)]
pub enum RangeBound {
    /// The end value is part of the range.
    Included(u64),
    /// The end value is not part of the range.
    Excluded(u64),
    /// The range does not stop on this side.
    Unbounded,
}

/// A range of `u64` values given by its two ends, such as `..`, `a..`, `a..b` or `a..=b`.
#[derive(Clone, Copy, Debug, PartialEq, Eq, Structural)]
pub struct U64Range {
    pub start: RangeBound,
    pub end: RangeBound,
}

/// An inclusive range `start..=end`.
#[derive(Clone, Copy, Debug, PartialEq, Eq, Structural)]
pub struct InclusiveRange {
    pub start: u64,
    pub end: u64,
}

/// Whether `v` lies past a start bound.
pub open spec fn above_start(b: RangeBound, v: int) -> bool {
    match b {
        RangeBound::Included(s) => s <= v,
        RangeBound::Excluded(s) => s < v,
        RangeBound::Unbounded => true,
    }
}

/// Whether `v` lies before an end bound.
pub open spec fn below_end(b: RangeBound, v: int) -> bool {
    match b {
        RangeBound::Included(e) => v <= e,
        RangeBound::Excluded(e) => v < e,
        RangeBound::Unbounded => true,
    }
}

impl U64Range {
    /// Membership, as `RangeBounds::contains` defines it.
    pub open spec fn spec_contains(self, v: int) -> bool {
        above_start(self.start, v) && below_end(self.end, v)
    }

    /// The range `..`.
    pub fn full() -> (r: Self)
        ensures
            r.start == RangeBound::Unbounded,
            r.end == RangeBound::Unbounded,
    {
        U64Range { start: RangeBound::Unbounded, end: RangeBound::Unbounded }
    }

    /// The range `start..`.
    pub fn from_start(start: u64) -> (r: Self)
        ensures
            r.start == RangeBound::Included(start),
            r.end == RangeBound::Unbounded,
    {
        U64Range { start: RangeBound::Included(start), end: RangeBound::Unbounded }
    }

    /// The half-open range `start..end`.
    pub fn half_open(start: u64, end: u64) -> (r: Self)
        ensures
            r.start == RangeBound::Included(start),
            r.end == RangeBound::Excluded(end),
    {
        U64Range { start: RangeBound::Included(start), end: RangeBound::Excluded(end) }
    }

    /// The inclusive range `start..=end`.
    pub fn inclusive(start: u64, end: u64) -> (r: Self)
        ensures
            r.start == RangeBound::Included(start),
            r.end == RangeBound::Included(end),
    {
        U64Range { start: RangeBound::Included(start), end: RangeBound::Included(end) }
    }

    /// Whether `v` is in the range.
    pub fn contains(&self, v: u64) -> (r: bool)
        ensures
            r == self.spec_contains(v as int),
    {
        let above = match self.start {
            RangeBound::Included(s) => s <= v,
            RangeBound::Excluded(s) => s < v,
            RangeBound::Unbounded => true,
        };
        let below = match self.end {
            RangeBound::Included(e) => v <= e,
            RangeBound::Excluded(e) => v < e,
            RangeBound::Unbounded => true,
        };
        above && below
    }
}

impl InclusiveRange {
    pub open spec fn spec_contains(self, v: int) -> bool {
        self.start <= v <= self.end
    }

    /// Whether `v` is in `start..=end`.
    pub fn contains(&self, v: u64) -> (r: bool)
        ensures
            r == self.spec_contains(v as int),
    {
        self.start <= v && v <= self.end
    }

    /// The same range, written with two bounds.
    pub fn to_bounds(&self) -> (r: U64Range)
        ensures
            r.start == RangeBound::Included(self.start),
            r.end == RangeBound::Included(self.end),
    {
        U64Range::inclusive(self.start, self.end)
    }
}

/// Whether some `u64` value lies in both ranges.
pub open spec fn have_common_value(x: U64Range, y: U64Range) -> bool {
    exists|v: u64| #[trigger] x.spec_contains(v as int) && y.spec_contains(v as int)
}

/// The smallest value admitted by a start bound, or `None` when it admits none
/// (`Excluded(u64::MAX)`).
fn first_value(b: RangeBound) -> (r: Option<u64>)
    ensures
        r is None <==> b == RangeBound::Excluded(u64::MAX),
        r is Some ==> above_start(b, r->Some_0 as int) && forall|v: u64|
            above_start(b, v as int) ==> r->Some_0 <= v,
{
    match b {
        RangeBound::Included(s) => Some(s),
        RangeBound::Excluded(s) => if s == u64::MAX {
            None
        } else {
            Some(s + 1)
        },
        RangeBound::Unbounded => Some(0),
    }
}

/// The largest value admitted by an end bound, or `None` when it admits none (`Excluded(0)`).
fn last_value(b: RangeBound) -> (r: Option<u64>)
    ensures
        r is None <==> b == RangeBound::Excluded(0u64),
        r is Some ==> below_end(b, r->Some_0 as int) && forall|v: u64|
            below_end(b, v as int) ==> v <= r->Some_0,
{
    match b {
        RangeBound::Included(e) => Some(e),
        RangeBound::Excluded(e) => if e == 0 {
            None
        } else {
            Some(e - 1)
        },
        RangeBound::Unbounded => Some(u64::MAX),
    }
}

/// Whether two ranges overlap: some value lies in both. An empty range overlaps nothing.
pub fn range_overlaps(x: &U64Range, y: &U64Range) -> (r: bool)
    ensures
        r == have_common_value(*x, *y),
{
    let (x1, x2, y1, y2) = match (
        first_value(x.start),
        last_value(x.end),
        first_value(y.start),
        last_value(y.end),
    ) {
        (Some(x1), Some(x2), Some(y1), Some(y2)) => (x1, x2, y1, y2),
        _ => {
            proof {
                assert forall|v: u64| !(x.spec_contains(v as int) && y.spec_contains(v as int)) by {
                    if x.spec_contains(v as int) && y.spec_contains(v as int) {
                        assert(x.start != RangeBound::Excluded(u64::MAX));
                        assert(x.end != RangeBound::Excluded(0u64));
                        assert(y.start != RangeBound::Excluded(u64::MAX));
                        assert(y.end != RangeBound::Excluded(0u64));
                    }
                }
            }
            return false;
        },
    };
    let lo = if x1 >= y1 {
        x1
    } else {
        y1
    };
    let hi = if x2 <= y2 {
        x2
    } else {
        y2
    };
    if lo <= hi {
        proof {
            assert(x.spec_contains(lo as int) && y.spec_contains(lo as int));
        }
        true
    } else {
        proof {
            assert forall|v: u64| !(x.spec_contains(v as int) && y.spec_contains(v as int)) by {
                if x.spec_contains(v as int) && y.spec_contains(v as int) {
                    assert(x1 <= v && y1 <= v && v <= x2 && v <= y2);
                }
            }
        }
        false
    }
}

} // verus!
