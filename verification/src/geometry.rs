//! Screen geometry: positions, sizes, rectangles and padding, all in cells.

use vstd::prelude::*;

verus! {

/// A cell coordinate on screen.
#[derive(Clone, Copy, Debug, PartialEq, Eq, Structural, Default)]
pub struct Position {
    pub x: u16,
    pub y: u16,
}

impl Position {
    pub fn new(x: u16, y: u16) -> (p: Position)
        ensures
            p.x == x,
            p.y == y,
    {
        Position { x, y }
    }
}

/// A width/height extent in cells.
#[derive(Clone, Copy, Debug, PartialEq, Eq, Structural, Default)]
pub struct Size {
    pub width: u16,
    pub height: u16,
}

impl Size {
    pub fn new(width: u16, height: u16) -> (s: Size)
        ensures
            s.width == width,
            s.height == height,
    {
        Size { width, height }
    }

    /// The empty extent.
    pub fn zero() -> (s: Size)
        ensures
            s.width == 0,
            s.height == 0,
    {
        Size { width: 0, height: 0 }
    }
}

/// `a + b` capped at `u16::MAX`.
pub open spec fn sat_add(a: int, b: int) -> int {
    if a + b > u16::MAX { u16::MAX as int } else { a + b }
}

/// `a - b` floored at zero.
pub open spec fn sat_sub(a: int, b: int) -> int {
    if a - b < 0 { 0 } else { a - b }
}

pub open spec fn min(a: int, b: int) -> int {
    if a <= b { a } else { b }
}

pub open spec fn max(a: int, b: int) -> int {
    if a >= b { a } else { b }
}

/// A rectangle: origin plus extent, in screen cells.
#[derive(Clone, Copy, Debug, PartialEq, Eq, Structural, Default)]
pub struct Rect {
    pub x: u16,
    pub y: u16,
    pub width: u16,
    pub height: u16,
}

impl Rect {
    pub open spec fn spec_right(self) -> int {
        sat_add(self.x as int, self.width as int)
    }

    pub open spec fn spec_bottom(self) -> int {
        sat_add(self.y as int, self.height as int)
    }

    pub open spec fn spec_area(self) -> int {
        self.width * self.height
    }

    /// Whether a cell lies inside the rectangle.
    pub open spec fn holds(self, x: int, y: int) -> bool {
        self.x <= x < self.spec_right() && self.y <= y < self.spec_bottom()
    }

    pub fn new(x: u16, y: u16, width: u16, height: u16) -> (r: Rect)
        ensures
            r.x == x,
            r.y == y,
            r.width == width,
            r.height == height,
    {
        Rect { x, y, width, height }
    }

    /// One column past the right edge (saturating).
    pub fn right(&self) -> (r: u16)
        ensures
            r == self.spec_right(),
    {
        self.x.saturating_add(self.width)
    }

    /// One row past the bottom edge (saturating).
    pub fn bottom(&self) -> (r: u16)
        ensures
            r == self.spec_bottom(),
    {
        self.y.saturating_add(self.height)
    }

    /// Number of cells covered.
    pub fn area(&self) -> (a: u32)
        ensures
            a == self.spec_area(),
    {
        proof {
            assert(self.width * self.height <= 65535 * 65535) by (nonlinear_arith)
                requires
                    self.width <= 65535,
                    self.height <= 65535,
            ;
        }
        (self.width as u32) * (self.height as u32)
    }

    pub fn is_empty(&self) -> (b: bool)
        ensures
            b == (self.width == 0 || self.height == 0),
    {
        self.width == 0 || self.height == 0
    }

    /// Whether `p` is inside the rectangle.
    pub fn contains(&self, p: Position) -> (b: bool)
        ensures
            b == self.holds(p.x as int, p.y as int),
    {
        p.x >= self.x && p.x < self.right() && p.y >= self.y && p.y < self.bottom()
    }

    pub open spec fn spec_intersection(self, other: Rect) -> Rect {
        let x1 = max(self.x as int, other.x as int);
        let y1 = max(self.y as int, other.y as int);
        let x2 = min(self.spec_right(), other.spec_right());
        let y2 = min(self.spec_bottom(), other.spec_bottom());
        Rect {
            x: x1 as u16,
            y: y1 as u16,
            width: sat_sub(x2, x1) as u16,
            height: sat_sub(y2, y1) as u16,
        }
    }

    /// The overlap of two rectangles; zero-sized when they are disjoint.
    pub fn intersection(&self, other: Rect) -> (r: Rect)
        ensures
            r == self.spec_intersection(other),
    {
        let x1 = if self.x >= other.x { self.x } else { other.x };
        let y1 = if self.y >= other.y { self.y } else { other.y };
        let sr = self.right();
        let or = other.right();
        let sb = self.bottom();
        let ob = other.bottom();
        let x2 = if sr <= or { sr } else { or };
        let y2 = if sb <= ob { sb } else { ob };
        Rect { x: x1, y: y1, width: x2.saturating_sub(x1), height: y2.saturating_sub(y1) }
    }

    pub open spec fn spec_union(self, other: Rect) -> Rect {
        let x1 = min(self.x as int, other.x as int);
        let y1 = min(self.y as int, other.y as int);
        let x2 = max(self.spec_right(), other.spec_right());
        let y2 = max(self.spec_bottom(), other.spec_bottom());
        Rect { x: x1 as u16, y: y1 as u16, width: (x2 - x1) as u16, height: (y2 - y1) as u16 }
    }

    /// The smallest rectangle covering both.
    pub fn union(&self, other: Rect) -> (r: Rect)
        ensures
            r == self.spec_union(other),
    {
        let x1 = if self.x <= other.x { self.x } else { other.x };
        let y1 = if self.y <= other.y { self.y } else { other.y };
        let sr = self.right();
        let or = other.right();
        let sb = self.bottom();
        let ob = other.bottom();
        let x2 = if sr >= or { sr } else { or };
        let y2 = if sb >= ob { sb } else { ob };
        Rect { x: x1, y: y1, width: x2 - x1, height: y2 - y1 }
    }
}

/// Space kept free inside a rectangle, per side.
#[derive(Clone, Copy, Debug, PartialEq, Eq, Structural, Default)]
pub struct Padding {
    pub top: u16,
    pub right: u16,
    pub bottom: u16,
    pub left: u16,
}

impl Padding {
    /// No padding.
    pub fn zero() -> (p: Padding)
        ensures
            p == (Padding { top: 0, right: 0, bottom: 0, left: 0 }),
    {
        Padding { top: 0, right: 0, bottom: 0, left: 0 }
    }

    /// `n` on every side.
    pub fn all(n: u16) -> (p: Padding)
        ensures
            p == (Padding { top: n, right: n, bottom: n, left: n }),
    {
        Padding { top: n, right: n, bottom: n, left: n }
    }

    /// `horizontal` left and right, `vertical` top and bottom.
    pub fn symmetric(horizontal: u16, vertical: u16) -> (p: Padding)
        ensures
            p == (Padding { top: vertical, right: horizontal, bottom: vertical, left: horizontal }),
    {
        Padding { top: vertical, right: horizontal, bottom: vertical, left: horizontal }
    }

    /// Left plus right, saturating.
    pub fn horizontal(&self) -> (n: u16)
        ensures
            n == sat_add(self.left as int, self.right as int),
    {
        self.left.saturating_add(self.right)
    }

    /// Top plus bottom, saturating.
    pub fn vertical(&self) -> (n: u16)
        ensures
            n == sat_add(self.top as int, self.bottom as int),
    {
        self.top.saturating_add(self.bottom)
    }

    /// `r` shrunk by this padding: the origin moves in by left/top and the
    /// extent loses both sides, all saturating.
    pub open spec fn spec_inner(self, r: Rect) -> Rect {
        Rect {
            x: sat_add(r.x as int, self.left as int) as u16,
            y: sat_add(r.y as int, self.top as int) as u16,
            width: sat_sub(r.width as int, sat_add(self.left as int, self.right as int)) as u16,
            height: sat_sub(r.height as int, sat_add(self.top as int, self.bottom as int)) as u16,
        }
    }

    pub fn inner(&self, r: Rect) -> (i: Rect)
        ensures
            i == self.spec_inner(r),
    {
        Rect {
            x: r.x.saturating_add(self.left),
            y: r.y.saturating_add(self.top),
            width: r.width.saturating_sub(self.horizontal()),
            height: r.height.saturating_sub(self.vertical()),
        }
    }
}

} // verus!
