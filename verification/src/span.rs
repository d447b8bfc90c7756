//! Byte spans over the immutable source buffer.

use vstd::prelude::*;

verus! {

/// A half-open byte range `[lo, hi)` into the source buffer.  A span never
/// owns text; it is always a view into the buffer.
#[derive(Clone, Copy, Debug, PartialEq, Eq, Structural)]
pub struct SourceSpan {
    pub lo: usize,
    pub hi: usize,
}

/// A span is well formed when its bounds are ordered.
pub open spec fn span_wf(s: SourceSpan) -> bool {
    s.lo <= s.hi
}

/// Build the span `[lo, hi)`.
pub fn mk_sp(lo: usize, hi: usize) -> (s: SourceSpan)
    requires
        lo <= hi,
    ensures
        s.lo == lo,
        s.hi == hi,
        span_wf(s),
{
    SourceSpan { lo, hi }
}

} // verus!
