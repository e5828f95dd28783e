use vstd::prelude::*;

verus! {

/// A half-open byte range `start..end` into the source text.
#[derive(Debug, Clone, Copy, PartialEq, Eq, Structural)]
pub struct Span {
    pub start: u32,
    pub end: u32,
}

/// The smaller of two offsets.
pub open spec fn min_u32(a: u32, b: u32) -> u32 {
    if a <= b { a } else { b }
}

/// The larger of two offsets.
pub open spec fn max_u32(a: u32, b: u32) -> u32 {
    if a >= b { a } else { b }
}

impl Span {
    /// Build a span from its two offsets.
    pub fn new(start: u32, end: u32) -> (s: Span)
        ensures
            s.start == start,
            s.end == end,
    {
        Span { start, end }
    }

    /// The smallest span that covers both `self` and `other`.
    pub open spec fn spec_merge(self, other: Span) -> Span {
        Span { start: min_u32(self.start, other.start), end: max_u32(self.end, other.end) }
    }

    /// The smallest span that covers both `self` and `other`.
    pub fn merge(self, other: Span) -> (s: Span)
        ensures
            s == self.spec_merge(other),
    {
        let start = if self.start <= other.start { self.start } else { other.start };
        let end = if self.end >= other.end { self.end } else { other.end };
        Span { start, end }
    }
}

/// A value together with the source span it was read from.
#[derive(Debug, Clone, PartialEq)]
pub struct Spanned<T> {
    pub node: T,
    pub span: Span,
}

impl<T> Spanned<T> {
    /// Pair a value with its span.
    pub fn new(node: T, span: Span) -> (s: Spanned<T>)
        ensures
            s.node == node,
            s.span == span,
    {
        Spanned { node, span }
    }
}

/// Merging spans is commutative and associative, merging a span with itself
/// gives it back, and the merge covers both spans.
pub proof fn law_merge_cover(a: Span, b: Span, c: Span)
    ensures
        a.spec_merge(b) == b.spec_merge(a),
        a.spec_merge(b).spec_merge(c) == a.spec_merge(b.spec_merge(c)),
        a.spec_merge(a) == a,
        a.spec_merge(b).start <= a.start && a.spec_merge(b).start <= b.start,
        a.spec_merge(b).end >= a.end && a.spec_merge(b).end >= b.end,
{
}

} // verus!
