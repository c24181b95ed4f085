//! Source positions and ranges, in 0-indexed rows and columns of
//! UTF-8 characters.

use vstd::prelude::*;

verus! {

/// A position in a source file: (row, column), both 0-indexed and
/// counted in characters, not bytes.
#[derive(Clone, Copy, Debug, PartialEq, Eq, Structural)]
pub struct Point {
    pub row: usize,
    pub column: usize,
}

/// A source range, inclusive at both endpoints.
#[derive(Clone, Copy, Debug, PartialEq, Eq, Structural)]
pub struct Range {
    pub start: Point,
    pub end: Point,
}

/// Lexicographic order on positions: `a` is at or before `b`.
pub open spec fn point_le(a: Point, b: Point) -> bool {
    a.row < b.row || (a.row == b.row && a.column <= b.column)
}

/// Decides `point_le`.
pub fn point_le_exec(a: Point, b: Point) -> (r: bool)
    ensures
        r == point_le(a, b),
{
    a.row < b.row || (a.row == b.row && a.column <= b.column)
}

impl Point {
    pub open spec fn spec_zero() -> Point {
        Point { row: 0, column: 0 }
    }

    /// The origin, row 0 and column 0.
    pub fn zero() -> (p: Point)
        ensures
            p == Point::spec_zero(),
    {
        Point { row: 0, column: 0 }
    }
}

impl Range {
    /// Whether a position lies inside this range: strictly between the
    /// rows, or on the start or end row within the column bounds.
    pub open spec fn spec_contains(self, other: Point) -> bool {
        (self.start.row < other.row && other.row < self.end.row) || ((self.start.row == other.row
            || self.end.row == other.row) && self.start.column <= other.column && other.column
            <= self.end.column)
    }

    /// Whether this range contains both endpoints of `other`.
    pub open spec fn spec_fully_contains(self, other: Range) -> bool {
        self.spec_contains(other.start) && self.spec_contains(other.end)
    }

    pub fn contains(&self, other: Point) -> (r: bool)
        ensures
            r == self.spec_contains(other),
    {
        self.start.row < other.row && other.row < self.end.row || (self.start.row == other.row
            || self.end.row == other.row) && self.start.column <= other.column && other.column
            <= self.end.column
    }

    pub fn fully_contains(&self, other: Range) -> (r: bool)
        ensures
            r == self.spec_fully_contains(other),
    {
        self.contains(other.start) && self.contains(other.end)
    }

    /// Whether a position lies between this range's endpoints in
    /// document order. Unlike `spec_contains`, this covers every
    /// position of a range that spans rows.
    pub open spec fn spec_covers(self, p: Point) -> bool {
        point_le(self.start, p) && point_le(p, self.end)
    }

    pub fn covers(&self, p: Point) -> (r: bool)
        ensures
            r == self.spec_covers(p),
    {
        point_le_exec(self.start, p) && point_le_exec(p, self.end)
    }

    pub open spec fn spec_zero() -> Range {
        Range { start: Point::spec_zero(), end: Point::spec_zero() }
    }

    /// The empty range at the origin.
    pub fn zero() -> (r: Range)
        ensures
            r == Range::spec_zero(),
    {
        Range { start: Point::zero(), end: Point::zero() }
    }
}

} // verus!
