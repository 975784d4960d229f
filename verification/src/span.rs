//! Half-open byte-offset intervals.

use vstd::prelude::*;

verus! {

/// A half-open interval `[start, end)` of byte offsets into some text.
///
/// A span is always interpreted relative to one coordinate space (the
/// original document, or one extracted sub-document); translation between
/// spaces is an explicit shift by the sub-document's anchor.
#[derive(Clone, Copy, Debug, PartialEq, Eq, Structural)]
pub struct Span {
    pub start: u32,
    pub end: u32,
}

impl Span {
    /// A span is well formed when it does not end before it starts.
    pub open spec fn spec_wf(self) -> bool {
        self.start <= self.end
    }

    /// A span lies within a text of byte length `len` when its end does.
    pub open spec fn spec_within(self, len: nat) -> bool {
        self.spec_wf() && self.end <= len
    }

    pub fn new(start: u32, end: u32) -> (s: Span)
        ensures
            s.start == start,
            s.end == end,
    {
        Span { start, end }
    }

    /// Shift this span rightward by a sub-document's absolute start anchor,
    /// expressing it in the enclosing document's coordinates.
    pub fn translate(self, anchor: u32) -> (s: Span)
        requires
            self.start + anchor <= u32::MAX,
            self.end + anchor <= u32::MAX,
        ensures
            s.start == self.start + anchor,
            s.end == self.end + anchor,
    {
        Span { start: self.start + anchor, end: self.end + anchor }
    }

    /// Byte length of the interval.
    pub fn len(self) -> (n: u32)
        requires
            self.spec_wf(),
        ensures
            n == self.end - self.start,
    {
        self.end - self.start
    }

    /// Ordering by start offset, the order the patch engine sorts by.
    pub fn starts_before(self, other: Span) -> (r: bool)
        ensures
            r == (self.start <= other.start),
    {
        self.start <= other.start
    }
}

} // verus!
