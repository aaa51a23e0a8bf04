use vstd::prelude::*;

verus! {

/// A half-open range `[start, end)` of byte offsets into a source text.
#[derive(Debug, Clone, Copy, PartialEq, Eq, Structural)]
pub struct Span {
    pub start: usize,
    pub end: usize,
}

impl Span {
    /// The range from `start` up to, but not including, `end`.
    pub fn new(start: usize, end: usize) -> (span: Span)
        requires
            start <= end,
        ensures
            span == (Span { start, end }),
            span.well_formed(),
    {
        Span { start, end }
    }

    /// A span never ends before it starts.
    pub open spec fn well_formed(self) -> bool {
        self.start <= self.end
    }
}

} // verus!
