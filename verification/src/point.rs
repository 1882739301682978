//! Positions in text: rows and columns, UTF-16 positions and UTF-16 offsets.
use vstd::prelude::*;

verus! {

/// A zero-indexed point in a text buffer consisting of a row and column.
#[derive(Clone, Copy, Debug, Default, PartialEq, Eq, Hash)]
pub struct Point {
    pub row: u32,
    pub column: u32,
}

/// Adding a point that lies on a later stretch of text: a point with no row keeps the
/// row and extends the column, otherwise the rows add up and the column is taken over.
pub open spec fn point_add(a: (int, int), b: (int, int)) -> (int, int) {
    if b.0 == 0 {
        (a.0, a.1 + b.1)
    } else {
        (a.0 + b.0, b.1)
    }
}

impl Point {
    pub open spec fn pair(&self) -> (int, int) {
        (self.row as int, self.column as int)
    }

    pub fn new(row: u32, column: u32) -> (p: Self)
        ensures
            p.row == row,
            p.column == column,
    {
        Point { row, column }
    }

    /// `self += other` (the `AddAssign` of a point).
    pub fn add_assign(&mut self, other: Self)
        requires
            other.row == 0 ==> old(self).column + other.column <= u32::MAX,
            other.row != 0 ==> old(self).row + other.row <= u32::MAX,
        ensures
            final(self).pair() == point_add(old(self).pair(), other.pair()),
    {
        if other.row == 0 {
            self.column = self.column + other.column;
        } else {
            self.row = self.row + other.row;
            self.column = other.column;
        }
    }
}

/// Adding points is associative: appending three stretches of text in either grouping
/// ends at the same place.
pub proof fn point_add_associative(a: (int, int), b: (int, int), c: (int, int))
    requires
        a.0 >= 0,
        b.0 >= 0,
        c.0 >= 0,
    ensures
        point_add(point_add(a, b), c) == point_add(a, point_add(b, c)),
{
}

/// The zero point is a neutral element on both sides.
pub proof fn point_add_zero(a: (int, int))
    ensures
        point_add(a, (0, 0)) == a,
        point_add((0, 0), a) == a,
{
}

/// A zero-indexed point in a text buffer whose column counts UTF-16 code units.
#[derive(Clone, Copy, Debug, Default, PartialEq, Eq, Hash)]
pub struct PointUtf16 {
    pub row: u32,
    pub column: u32,
}

impl PointUtf16 {
    pub fn new(row: u32, column: u32) -> (p: Self)
        ensures
            p.row == row,
            p.column == column,
    {
        PointUtf16 { row, column }
    }
}

/// An offset measured in UTF-16 code units.
#[derive(Copy, Clone, Debug, Default, PartialEq, Eq, PartialOrd, Ord)]
pub struct OffsetUtf16(pub usize);

impl OffsetUtf16 {
    /// `self += other` (the `AddAssign` of an offset).
    pub fn add_assign(&mut self, other: Self)
        requires
            old(self).0 + other.0 <= usize::MAX,
        ensures
            final(self).0 == old(self).0 + other.0,
    {
        self.0 = self.0 + other.0;
    }
}

} // verus!
