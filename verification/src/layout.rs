//! Positions, sizes and rectangles in terminal cell coordinates.
use vstd::prelude::*;

verus! {

/// A column/row position on the screen, with the origin at the top left.
#[derive(Debug, Clone, Copy, PartialEq, Eq, Hash, Structural)]
pub struct Position {
    /// The column.
    pub x: u16,
    /// The row.
    pub y: u16,
}

impl Position {
    /// The top left corner of the screen.
    pub fn origin() -> (p: Position)
        ensures
            p == (Position { x: 0, y: 0 }),
    {
        Position { x: 0, y: 0 }
    }

    /// Builds a position from a column and a row.
    pub fn new(x: u16, y: u16) -> (p: Position)
        ensures
            p == (Position { x, y }),
    {
        Position { x, y }
    }
}

impl Default for Position {
    fn default() -> (p: Position)
        ensures
            p == (Position { x: 0, y: 0 }),
    {
        Position { x: 0, y: 0 }
    }
}

impl From<(u16, u16)> for Position {
    fn from(value: (u16, u16)) -> (p: Position) {
        Position { x: value.0, y: value.1 }
    }
}

impl vstd::std_specs::convert::FromSpecImpl<(u16, u16)> for Position {
    open spec fn obeys_from_spec() -> bool {
        true
    }

    open spec fn from_spec(v: (u16, u16)) -> Position {
        Position { x: v.0, y: v.1 }
    }
}

/// A width and a height, in cells.
#[derive(Debug, Clone, Copy, PartialEq, Eq, Hash, Structural)]
pub struct Size {
    /// The number of columns.
    pub width: u16,
    /// The number of rows.
    pub height: u16,
}

impl Size {
    /// Builds a size from a width and a height.
    pub fn new(width: u16, height: u16) -> (s: Size)
        ensures
            s == (Size { width, height }),
    {
        Size { width, height }
    }
}

/// A rectangular area of the screen: its top left corner and its size.
#[derive(Debug, Clone, Copy, PartialEq, Eq, Hash, Structural)]
pub struct Rect {
    /// The column of the left edge.
    pub x: u16,
    /// The row of the top edge.
    pub y: u16,
    /// The number of columns.
    pub width: u16,
    /// The number of rows.
    pub height: u16,
}

/// The number of cells of a rectangle of the given size.
pub open spec fn cell_count(width: u16, height: u16) -> nat {
    (width as nat) * (height as nat)
}

/// The sum `a + b`, held at the largest `u16`.
pub open spec fn sat_add(a: u16, b: u16) -> u16 {
    if a + b > u16::MAX {
        u16::MAX
    } else {
        (a + b) as u16
    }
}

/// The difference `a - b`, held at zero.
pub open spec fn sat_sub(a: u16, b: u16) -> u16 {
    if a >= b {
        (a - b) as u16
    } else {
        0
    }
}

/// The smaller of two values.
pub open spec fn min_u16(a: u16, b: u16) -> u16 {
    if a <= b {
        a
    } else {
        b
    }
}

impl Default for Rect {
    fn default() -> (r: Rect)
        ensures
            r == (Rect { x: 0, y: 0, width: 0, height: 0 }),
    {
        Rect { x: 0, y: 0, width: 0, height: 0 }
    }
}

impl Rect {
    /// Builds a rectangle; the width and height are shrunk so that the right and bottom edges
    /// stay within the `u16` coordinate space.
    pub fn new(x: u16, y: u16, width: u16, height: u16) -> (r: Rect)
        ensures
            r == (Rect {
                x,
                y,
                width: (sat_add(x, width) - x) as u16,
                height: (sat_add(y, height) - y) as u16,
            }),
    {
        Rect {
            x,
            y,
            width: x.saturating_add(width) - x,
            height: y.saturating_add(height) - y,
        }
    }

    /// The number of cells in the rectangle.
    pub fn area(&self) -> (a: u32)
        ensures
            a == cell_count(self.width, self.height),
    {
        proof {
            vstd::arithmetic::mul::lemma_mul_upper_bound(
                self.width as int,
                u16::MAX as int,
                self.height as int,
                u16::MAX as int,
            );
        }
        (self.width as u32) * (self.height as u32)
    }

    /// Whether the rectangle holds no cell.
    pub fn is_empty(&self) -> (b: bool)
        ensures
            b == (self.width == 0 || self.height == 0),
    {
        self.width == 0 || self.height == 0
    }

    /// The column of the left edge.
    pub fn left(&self) -> (v: u16)
        ensures
            v == self.x,
    {
        self.x
    }

    /// The column just right of the rectangle (held at the largest `u16`).
    pub fn right(&self) -> (v: u16)
        ensures
            v == sat_add(self.x, self.width),
    {
        self.x.saturating_add(self.width)
    }

    /// The row of the top edge.
    pub fn top(&self) -> (v: u16)
        ensures
            v == self.y,
    {
        self.y
    }

    /// The row just below the rectangle (held at the largest `u16`).
    pub fn bottom(&self) -> (v: u16)
        ensures
            v == sat_add(self.y, self.height),
    {
        self.y.saturating_add(self.height)
    }

    /// The top left corner.
    pub fn as_position(&self) -> (p: Position)
        ensures
            p == (Position { x: self.x, y: self.y }),
    {
        Position { x: self.x, y: self.y }
    }

    /// The size.
    pub fn as_size(&self) -> (s: Size)
        ensures
            s == (Size { width: self.width, height: self.height }),
    {
        Size { width: self.width, height: self.height }
    }
}

impl From<(Position, Size)> for Rect {
    fn from(value: (Position, Size)) -> (r: Rect) {
        Rect { x: value.0.x, y: value.0.y, width: value.1.width, height: value.1.height }
    }
}

impl vstd::std_specs::convert::FromSpecImpl<(Position, Size)> for Rect {
    open spec fn obeys_from_spec() -> bool {
        true
    }

    open spec fn from_spec(v: (Position, Size)) -> Rect {
        Rect { x: v.0.x, y: v.0.y, width: v.1.width, height: v.1.height }
    }
}

} // verus!
