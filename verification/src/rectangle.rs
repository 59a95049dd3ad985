use vstd::prelude::*;
use crate::screen::Dimension;

verus! {

/// A (row, column) coordinate in a cell buffer; row 0 is the top row and
/// column 0 the leftmost column.
#[derive(Clone, Copy, PartialEq, Eq, Structural, Debug)]
pub struct Point {
    pub row: usize,
    pub column: usize,
}

/// Where a smaller buffer is placed within a larger one: the coordinate of
/// its top-left cell and its size.
#[derive(Clone, Copy, PartialEq, Eq, Structural, Debug)]
pub struct Rectangle {
    pub origin: Point,
    pub dimension: Dimension,
}

/// The direction of a straight border line.
#[derive(Clone, Copy, PartialEq, Eq, Structural, Debug)]
pub enum BorderDirection {
    Horizontal,
    Vertical,
}

/// A straight line to paint into a buffer: it starts at `start` and runs in
/// `direction` to the buffer's edge.
#[derive(Clone, Copy, PartialEq, Eq, Structural, Debug)]
pub struct Border {
    pub direction: BorderDirection,
    pub start: Point,
}

} // verus!
