//! Source spans.

use vstd::prelude::*;

verus! {

/// A half-open range `start..end` of positions in a source text.
#[derive(Debug, Clone, Copy, PartialEq, Eq, Structural)]
pub struct Span {
    /// First position.
    pub start: usize,
    /// Position after the last one.
    pub end: usize,
}

impl Span {
    /// Creates a span from its bounds.
    pub fn new(start: usize, end: usize) -> (s: Span)
        ensures
            s.start == start,
            s.end == end,
    {
        Span { start, end }
    }

    /// Number of positions covered (zero for an inverted span).
    pub fn len(&self) -> (n: usize)
        ensures
            n == (if self.start <= self.end { self.end - self.start } else { 0 }),
    {
        if self.start <= self.end {
            self.end - self.start
        } else {
            0
        }
    }
}

/// A value with the span it was found at.
#[derive(Debug, Clone, PartialEq, Eq)]
pub struct Spanned<T> {
    /// The span.
    pub span: Span,
    /// The value.
    pub value: T,
}

impl<T> Spanned<T> {
    /// Pairs a value with its span.
    pub fn new(span: Span, value: T) -> (s: Spanned<T>)
        ensures
            s.span == span,
            s.value == value,
    {
        Spanned { span, value }
    }
}

} // verus!
