//! Text ranges and values attached to them.
use vstd::prelude::*;

verus! {

/// A range of text offsets, `start..end`.
#[derive(PartialEq, Eq, Structural, Clone, Copy, Debug)]
pub struct TextRange {
    pub start: u32,
    pub end: u32,
}

impl TextRange {
    pub open spec fn wf(&self) -> bool {
        self.start <= self.end
    }

    pub fn new(start: u32, end: u32) -> (r: TextRange)
        requires
            start <= end,
        ensures
            r.start == start,
            r.end == end,
            r.wf(),
    {
        TextRange { start, end }
    }

    pub fn len(&self) -> (r: u32)
        requires
            self.wf(),
        ensures
            r == self.end - self.start,
    {
        self.end - self.start
    }
}

/// Info associated with a text range.
#[derive(Debug)]
pub struct RangeInfo<T> {
    pub range: TextRange,
    pub info: T,
}

impl<T> RangeInfo<T> {
    pub fn new(range: TextRange, info: T) -> (r: RangeInfo<T>)
        ensures
            r.range == range,
            r.info == info,
    {
        RangeInfo { range, info }
    }
}

} // verus!
