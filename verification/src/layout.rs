//! Integer screen-space rectangles and alignment, used by composition and
//! hit testing.

use vstd::prelude::*;

verus! {

/// Which side of an anchor a measure extends toward.
#[derive(Debug, Clone, Copy)]
pub enum Align {
    Negative,
    Center,
    Positive,
}

/// An axis-aligned rectangle; `x0 <= x1` and `y0 <= y1` for a non-empty one.
#[derive(Debug, Clone, Copy, PartialEq, Eq, Structural)]
pub struct Rect {
    pub x0: i32,
    pub x1: i32,
    pub y0: i32,
    pub y1: i32,
}

/// Insets applied to each side of a rectangle.
#[derive(Debug, Clone, Copy)]
pub struct Margin {
    pub left: i32,
    pub right: i32,
    pub top: i32,
    pub bottom: i32,
}

/// Coordinates small enough that offsets and margins cannot overflow.
pub open spec fn rect_in_range(r: Rect) -> bool {
    &&& -0x1000_0000 <= r.x0 <= 0x1000_0000
    &&& -0x1000_0000 <= r.x1 <= 0x1000_0000
    &&& -0x1000_0000 <= r.y0 <= 0x1000_0000
    &&& -0x1000_0000 <= r.y1 <= 0x1000_0000
}

impl Rect {
    /// Horizontal extent; the left edge must not lie right of the right edge.
    pub fn width(self) -> (r: u32)
        requires
            self.x0 <= self.x1,
            rect_in_range(self),
        ensures
            r == self.x1 - self.x0,
    {
        (self.x1 - self.x0) as u32
    }

    /// Vertical extent; the top edge must not lie below the bottom edge.
    pub fn height(self) -> (r: u32)
        requires
            self.y0 <= self.y1,
            rect_in_range(self),
        ensures
            r == self.y1 - self.y0,
    {
        (self.y1 - self.y0) as u32
    }

    /// Shrinks the rectangle by the margin, clamping each moved edge at the
    /// opposite original edge so the result cannot invert.
    pub fn margin(self, margin: Margin) -> (r: Self)
        requires
            rect_in_range(self),
            -0x1000_0000 <= margin.left <= 0x1000_0000,
            -0x1000_0000 <= margin.right <= 0x1000_0000,
            -0x1000_0000 <= margin.top <= 0x1000_0000,
            -0x1000_0000 <= margin.bottom <= 0x1000_0000,
        ensures
            r.x0 == vstd::math::min(self.x0 + margin.left, self.x1 as int),
            r.y0 == vstd::math::min(self.y0 + margin.top, self.y1 as int),
            r.x1 == vstd::math::max(self.x1 - margin.right, self.x0 as int),
            r.y1 == vstd::math::max(self.y1 - margin.bottom, self.y0 as int),
    {
        let x0 = self.x0 + margin.left;
        let x1 = self.x1 - margin.right;
        let y0 = self.y0 + margin.top;
        let y1 = self.y1 - margin.bottom;

        Rect {
            x0: if x0 < self.x1 { x0 } else { self.x1 },
            y0: if y0 < self.y1 { y0 } else { self.y1 },
            x1: if x1 > self.x0 { x1 } else { self.x0 },
            y1: if y1 > self.y0 { y1 } else { self.y0 },
        }
    }

    /// Centers `rect`, taken as a size at the origin, relative to this
    /// rectangle's horizontal span; both axes derive from the horizontal
    /// measure.
    pub fn center(self, rect: Self) -> (r: Self)
        requires
            rect_in_range(self),
            rect_in_range(rect),
        ensures
            r.x0 == half_toward_zero(self.x0 - rect.x0 + self.x1 - rect.x1),
            r.x1 == half_toward_zero(self.x0 - rect.x0 + self.x1 + rect.x1),
            r.y0 == half_toward_zero(self.x0 - rect.x0 + self.x1 - rect.y1),
            r.y1 == half_toward_zero(self.x0 - rect.x0 + self.x1 + rect.y1),
    {
        let dx = self.x0 - rect.x0 + self.x1;
        let dy = self.x0 - rect.x0 + self.x1;

        Rect {
            x0: div2(dx - rect.x1),
            x1: div2(dx + rect.x1),
            y0: div2(dy - rect.y1),
            y1: div2(dy + rect.y1),
        }
    }

    /// Translates the rectangle by the given offset.
    pub fn offset(self, x: i32, y: i32) -> (r: Self)
        requires
            rect_in_range(self),
            -0x1000_0000 <= x <= 0x1000_0000,
            -0x1000_0000 <= y <= 0x1000_0000,
        ensures
            r.x0 == self.x0 + x,
            r.x1 == self.x1 + x,
            r.y0 == self.y0 + y,
            r.y1 == self.y1 + y,
    {
        Rect { x0: self.x0 + x, x1: self.x1 + x, y0: self.y0 + y, y1: self.y1 + y }
    }

    /// Whether the point lies inside the rectangle, edges included.
    pub fn hittest(&self, x: i32, y: i32) -> (r: bool)
        ensures
            r == (self.x0 <= x && x <= self.x1 && self.y0 <= y && y <= self.y1),
    {
        self.x0 <= x && x <= self.x1 && self.y0 <= y && y <= self.y1
    }
}

/// Half of a value, rounded toward zero.
pub open spec fn half_toward_zero(v: int) -> int {
    if v >= 0 {
        v / 2
    } else {
        -((-v) / 2)
    }
}

/// Halves a bounded value, rounding toward zero.
fn div2(v: i32) -> (r: i32)
    requires
        -0x4000_0000 <= v <= 0x4000_0000,
    ensures
        r == half_toward_zero(v as int),
{
    if v >= 0 {
        ((v as u32) / 2) as i32
    } else {
        let m = ((-v) as u32) / 2;
        -(m as i32)
    }
}

} // verus!
