//! A source span: the positions where a token begins and ends.

use vstd::prelude::*;
use crate::position::Position;

verus! {

/// The span of a token in the source buffer, immutable once attached.
#[derive(Clone, Copy, Debug, PartialEq, Eq, Structural)]
pub struct Location {
    begin: Position,
    end: Position,
}

impl Location {
    /// The position where the span begins.
    pub closed spec fn begin_spec(&self) -> Position {
        self.begin
    }

    /// The position where the span ends.
    pub closed spec fn end_spec(&self) -> Position {
        self.end
    }

    pub fn new(begin: Position, end: Position) -> (r: Location)
        ensures
            r.begin_spec() == begin,
            r.end_spec() == end,
    {
        Location { begin, end }
    }

    pub fn get_begin(&self) -> (r: Position)
        ensures
            r == self.begin_spec(),
    {
        self.begin
    }

    pub fn get_end(&self) -> (r: Position)
        ensures
            r == self.end_spec(),
    {
        self.end
    }
}

} // verus!
