//! Half-open column ranges `[start, end)`.

use vstd::prelude::*;

verus! {

/// A half-open range of columns within one coordinate space.
#[derive(Clone, Copy, Debug, PartialEq, Eq)]
pub struct Interval {
    pub start: usize,
    pub end: usize,
}

impl Interval {
    /// True when the range is not reversed.
    pub open spec fn wf(self) -> bool {
        self.start <= self.end
    }

    /// Number of columns covered by the range.
    pub open spec fn spec_len(self) -> int {
        self.end - self.start
    }

    /// Whether `col` lies inside the half-open range.
    pub open spec fn spec_contains(self, col: int) -> bool {
        self.start <= col < self.end
    }

    pub fn new(start: usize, end: usize) -> (r: Interval)
        requires
            start <= end,
        ensures
            r == (Interval { start, end }),
    {
        Interval { start, end }
    }

    pub fn len(&self) -> (r: usize)
        requires
            self.wf(),
        ensures
            r == self.spec_len(),
    {
        self.end - self.start
    }

    pub fn contains(&self, col: usize) -> (r: bool)
        ensures
            r == self.spec_contains(col as int),
    {
        self.start <= col && col < self.end
    }

    /// The same range shifted right by `amount` columns.
    pub fn translate(&self, amount: usize) -> (r: Interval)
        requires
            self.wf(),
            self.end + amount <= usize::MAX,
        ensures
            r.start == self.start + amount,
            r.end == self.end + amount,
    {
        Interval { start: self.start + amount, end: self.end + amount }
    }
}

} // verus!
