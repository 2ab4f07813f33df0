//! A line/column pair, totally ordered lexicographically by (line, column).

use vstd::prelude::*;
use core::cmp::Ordering;

verus! {

/// A position inside a source buffer: a line counter (starting at 1) and a
/// column counter (characters since the start of the line, starting at 0).
#[derive(Clone, Copy, Debug, PartialEq, Eq, Structural)]
pub struct Position {
    line: usize,
    column: usize,
}

impl Position {
    /// The line of this position.
    pub closed spec fn line_spec(&self) -> usize {
        self.line
    }

    /// The column of this position.
    pub closed spec fn column_spec(&self) -> usize {
        self.column
    }

    pub fn new(line: usize, column: usize) -> (r: Position)
        ensures
            r.line_spec() == line,
            r.column_spec() == column,
    {
        Position { line, column }
    }

    /// The position used when a token carries no location.
    pub fn new_zero() -> (r: Position)
        ensures
            r.line_spec() == 0,
            r.column_spec() == 0,
    {
        Position::new(0, 0)
    }

    pub fn get_line(&self) -> (r: usize)
        ensures
            r == self.line_spec(),
    {
        self.line
    }

    pub fn get_column(&self) -> (r: usize)
        ensures
            r == self.column_spec(),
    {
        self.column
    }
}

impl vstd::std_specs::cmp::PartialOrdSpecImpl for Position {
    open spec fn obeys_partial_cmp_spec() -> bool {
        true
    }

    open spec fn partial_cmp_spec(&self, other: &Position) -> Option<Ordering> {
        if self.line_spec() < other.line_spec() || (self.line_spec() == other.line_spec()
            && self.column_spec() < other.column_spec()) {
            Some(Ordering::Less)
        } else if self.line_spec() > other.line_spec() || (self.line_spec() == other.line_spec()
            && self.column_spec() > other.column_spec()) {
            Some(Ordering::Greater)
        } else {
            Some(Ordering::Equal)
        }
    }
}

impl PartialOrd for Position {
    /// Lexicographic order on (line, column).
    fn partial_cmp(&self, other: &Position) -> (r: Option<Ordering>) {
        if self.line < other.line || (self.line == other.line && self.column < other.column) {
            Some(Ordering::Less)
        } else if self.line > other.line || (self.line == other.line && self.column
            > other.column) {
            Some(Ordering::Greater)
        } else {
            Some(Ordering::Equal)
        }
    }
}

} // verus!
