//! A plain cursor advancement: how many characters and how many lines a
//! single match moved the cursor.

use vstd::prelude::*;

verus! {

/// A pair of counters describing how far one match advanced the cursor.
pub struct IncrementOffset {
    increment_offset: usize,
    increment_lines: usize,
}

impl IncrementOffset {
    /// The character advance of this increment.
    pub closed spec fn offset_spec(&self) -> usize {
        self.increment_offset
    }

    /// The line advance of this increment.
    pub closed spec fn lines_spec(&self) -> usize {
        self.increment_lines
    }

    pub fn new(offset: usize, lines: usize) -> (r: IncrementOffset)
        ensures
            r.offset_spec() == offset,
            r.lines_spec() == lines,
    {
        IncrementOffset { increment_offset: offset, increment_lines: lines }
    }

    pub fn get_increment_offset(&self) -> (r: usize)
        ensures
            r == self.offset_spec(),
    {
        self.increment_offset
    }

    pub fn get_increment_lines(&self) -> (r: usize)
        ensures
            r == self.lines_spec(),
    {
        self.increment_lines
    }
}

} // verus!
