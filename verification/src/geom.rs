//! Points, displacement vectors and vertices.
//!
//! Coordinates are exact fixed-point numbers: an `i64` count of units
//! of 1/65536 of a pixel. Canvas space is continuous — fractional
//! positions drive sub-pixel stepping — and a position is only rounded
//! to the nearest integer pixel when it is painted.

use vstd::prelude::*;
use crate::color::Color;
use crate::rat::rat_round;

verus! {

/// Number of fixed-point units in one pixel.
pub const COORD_ONE: i64 = 65536;

/// Largest supported coordinate magnitude in units (32768 pixels).
pub const COORD_LIMIT: i64 = 0x8000_0000;

/// A coordinate lies within the supported fixed-point range.
pub open spec fn coord_ok(c: i64) -> bool {
    -COORD_LIMIT <= c <= COORD_LIMIT
}

/// A position in canvas space, in fixed-point units.
#[derive(Clone, Copy, Debug, PartialEq, Eq, Structural)]
pub struct Point {
    pub x: i64,
    pub y: i64,
}

impl Point {
    /// Both coordinates are within the supported range.
    pub open spec fn wf(self) -> bool {
        coord_ok(self.x) && coord_ok(self.y)
    }

    /// The integer pixel column this position rounds to.
    pub open spec fn pixel_x(self) -> int {
        rat_round(self.x as int, COORD_ONE as int)
    }

    /// The integer pixel row this position rounds to.
    pub open spec fn pixel_y(self) -> int {
        rat_round(self.y as int, COORD_ONE as int)
    }

    pub fn new(x: i64, y: i64) -> (p: Point)
        ensures
            p == (Point { x, y }),
    {
        Point { x, y }
    }
}

/// A vertex: a position together with its color.
#[derive(Clone, Copy, Debug, PartialEq, Eq, Structural)]
pub struct Vertex {
    pub pos: Point,
    pub color: Color,
}

impl Vertex {
    pub open spec fn wf(self) -> bool {
        self.pos.wf()
    }

    pub fn new(x: i64, y: i64, color: Color) -> (v: Vertex)
        ensures
            v == (Vertex { pos: Point { x, y }, color }),
    {
        Vertex { pos: Point { x, y }, color }
    }
}

/// Resolve a possibly negative vertex reference against a table of
/// `len` vertices: a non-negative reference names its own slot (the
/// table is 1-based, slot 0 being a reserved sentinel), a negative
/// one counts back from the end, -1 naming the last vertex.
pub fn resolve_vertex_index(len: usize, idx: i32) -> (r: usize)
    requires
        idx >= 0 || (idx > i32::MIN && len + idx >= 0),
        idx >= 0 ==> idx <= usize::MAX,
    ensures
        r == if idx >= 0 {
            idx as int
        } else {
            len + idx
        },
{
    if idx >= 0 {
        idx as usize
    } else {
        len - ((-idx) as usize)
    }
}

/// A 2D displacement between two points, in fixed-point units.
#[derive(Clone, Copy, Debug, PartialEq, Eq, Structural)]
pub struct Displacement {
    pub dx: i64,
    pub dy: i64,
}

impl Displacement {
    /// The displacement `p2 - p1`.
    pub fn from_points(p1: &Point, p2: &Point) -> (d: Displacement)
        requires
            p1.wf(),
            p2.wf(),
        ensures
            d.dx == p2.x - p1.x,
            d.dy == p2.y - p1.y,
    {
        Displacement { dx: p2.x - p1.x, dy: p2.y - p1.y }
    }

    /// Negate both components in place.
    pub fn reverse(&mut self)
        requires
            -0x4000_0000_0000_0000 <= old(self).dx <= 0x4000_0000_0000_0000,
            -0x4000_0000_0000_0000 <= old(self).dy <= 0x4000_0000_0000_0000,
        ensures
            final(self).dx == -old(self).dx,
            final(self).dy == -old(self).dy,
    {
        self.dx = -self.dx;
        self.dy = -self.dy;
    }

    /// Exchange the two components in place.
    pub fn swap(&mut self)
        ensures
            final(self).dx == old(self).dy,
            final(self).dy == old(self).dx,
    {
        let t: i64 = self.dx;
        self.dx = self.dy;
        self.dy = t;
    }

    /// Accumulate another displacement in place.
    pub fn add(&mut self, other: &Displacement)
        requires
            -0x4000_0000_0000_0000 <= old(self).dx + other.dx <= 0x4000_0000_0000_0000,
            -0x4000_0000_0000_0000 <= old(self).dy + other.dy <= 0x4000_0000_0000_0000,
        ensures
            final(self).dx == old(self).dx + other.dx,
            final(self).dy == old(self).dy + other.dy,
    {
        self.dx = self.dx + other.dx;
        self.dy = self.dy + other.dy;
    }
}

} // verus!
