//! Half-open byte ranges `[begin, end)` used both for positions in the
//! flattened output and for positions in an origin source file.

use vstd::prelude::*;

verus! {

/// A half-open interval of byte offsets: `begin <= end`, covering the
/// positions `begin`, `begin + 1`, ..., `end - 1`.
#[derive(Clone, Copy, Debug)]
pub struct Range {
    pub begin: usize,
    pub end: usize,
}

impl Range {
    /// Whether the interval is well formed.
    pub open spec fn wf(self) -> bool {
        self.begin <= self.end
    }

    /// The number of bytes the interval covers.
    pub open spec fn span(self) -> int {
        self.end - self.begin
    }

    /// Whether `p` lies inside the half-open interval.
    pub open spec fn spec_contains(self, p: int) -> bool {
        self.begin <= p < self.end
    }

    pub fn new(begin: usize, end: usize) -> (r: Range)
        requires
            begin <= end,
        ensures
            r.begin == begin,
            r.end == end,
            r.wf(),
    {
        Range { begin, end }
    }

    /// Shift both endpoints right by `n` bytes.
    pub fn offset(&mut self, n: usize)
        requires
            old(self).wf(),
            old(self).end + n <= usize::MAX,
        ensures
            final(self).begin == old(self).begin + n,
            final(self).end == old(self).end + n,
    {
        self.begin = self.begin + n;
        self.end = self.end + n;
    }

    /// Whether `p` lies inside the half-open interval.
    pub fn contains(&self, p: usize) -> (r: bool)
        ensures
            r == self.spec_contains(p as int),
    {
        self.begin <= p && p < self.end
    }
}

} // verus!
