//! Positions in the source text.

use vstd::prelude::*;

verus! {

/// A half-open range `[start, end)` of positions in the source text.
#[derive(Clone, Copy, Debug, PartialEq, Eq, Hash, Structural)]
pub struct Span {
    pub start: usize,
    pub end: usize,
}

/// The smallest span that contains both `a` and `b`.
pub open spec fn cover(a: Span, b: Span) -> Span {
    Span {
        start: if a.start <= b.start { a.start } else { b.start },
        end: if a.end >= b.end { a.end } else { b.end },
    }
}

impl Span {
    pub fn new(start: usize, end: usize) -> (span: Span)
        ensures
            span == (Span { start, end }),
    {
        Span { start, end }
    }

    /// The span that covers `self` and `other`, whatever their order.
    pub fn to(&self, other: &Span) -> (span: Span)
        ensures
            span == cover(*self, *other),
    {
        let start: usize = if self.start <= other.start { self.start } else { other.start };
        let end: usize = if self.end >= other.end { self.end } else { other.end };
        Span { start, end }
    }
}

} // verus!
