use vstd::prelude::*;

verus! {

/// A half-open range `[start, end)` of byte offsets into the source text.
#[derive(Clone, Copy, Debug, PartialEq, Eq, Structural)]
pub struct Span(pub usize, pub usize);

impl Span {
    pub fn new(start: usize, end: usize) -> (r: Span)
        ensures
            r.0 == start,
            r.1 == end,
    {
        Span(start, end)
    }

    /// The zero-width span at `index`, used for synthetic tokens.
    pub fn pair(index: usize) -> (r: Span)
        ensures
            r.0 == index,
            r.1 == index,
    {
        Span::new(index, index)
    }

    /// From the start of `start` to the end of `end`.
    pub fn between(start: Span, end: Span) -> (r: Span)
        ensures
            r == span_between(start, end),
    {
        Span(start.0, end.1)
    }
}

pub open spec fn span_between(a: Span, b: Span) -> Span {
    Span(a.0, b.1)
}

/// `outer` covers every offset that `inner` covers.
pub open spec fn encloses(outer: Span, inner: Span) -> bool {
    outer.0 <= inner.0 && inner.1 <= outer.1
}

} // verus!
