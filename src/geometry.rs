//! Fixed-point vectors and axis-aligned rectangles.
use vstd::prelude::*;

verus! {

/// Number of length units in one pixel.
pub const UNITS_PER_PIXEL: i64 = 100;

/// Largest magnitude of a coordinate or a length that the geometric
/// operations accept; sums and doubled values of such numbers fit in `i64`.
pub const COORD_LIMIT: i64 = 1_000_000_000_000_000;

pub open spec fn in_limit(v: int) -> bool {
    -COORD_LIMIT <= v <= COORD_LIMIT
}

/// A position or displacement, in length units.
#[derive(Clone, Copy, Debug, PartialEq, Eq, Structural)]
pub struct Vec2 {
    pub x: i64,
    pub y: i64,
}

impl Vec2 {
    pub fn new(x: i64, y: i64) -> (r: Vec2)
        ensures
            r.x == x,
            r.y == y,
    {
        Vec2 { x, y }
    }
}

/// An axis-aligned rectangle: top-left corner `(x, y)`, extent `(w, h)`.
/// Extents may be negative (a degenerate rectangle), as the arithmetic
/// that produces hitboxes does not clamp them.
#[derive(Clone, Copy, Debug, PartialEq, Eq, Structural)]
pub struct Rect {
    pub x: i64,
    pub y: i64,
    pub w: i64,
    pub h: i64,
}

/// Strict overlap: rectangles that only share an edge do not intersect.
pub open spec fn overlaps(a: Rect, b: Rect) -> bool {
    &&& a.x < b.x + b.w
    &&& a.x + a.w > b.x
    &&& a.y < b.y + b.h
    &&& a.y + a.h > b.y
}

impl Rect {
    pub fn new(x: i64, y: i64, w: i64, h: i64) -> (r: Rect)
        ensures
            r == (Rect { x, y, w, h }),
    {
        Rect { x, y, w, h }
    }

    pub open spec fn bounded(self) -> bool {
        &&& in_limit(self.x as int)
        &&& in_limit(self.y as int)
        &&& in_limit(self.w as int)
        &&& in_limit(self.h as int)
    }

    /// Twice the x coordinate of the centre (exact in integers).
    pub open spec fn center2_x(self) -> int {
        2 * self.x + self.w
    }

    /// Twice the y coordinate of the centre (exact in integers).
    pub open spec fn center2_y(self) -> int {
        2 * self.y + self.h
    }

    pub fn intersects(&self, other: &Rect) -> (r: bool)
        requires
            self.bounded(),
            other.bounded(),
        ensures
            r == overlaps(*self, *other),
    {
        self.x < other.x + other.w && self.x + self.w > other.x && self.y < other.y + other.h
            && self.y + self.h > other.y
    }

    /// The centre, rounded toward negative infinity.
    pub fn center(&self) -> (r: Vec2)
        requires
            self.bounded(),
        ensures
            r.x == (self.center2_x()) / 2,
            r.y == (self.center2_y()) / 2,
    {
        let cx = 2 * self.x + self.w;
        let cy = 2 * self.y + self.h;
        Vec2 { x: half_floor(cx), y: half_floor(cy) }
    }
}

/// `v / 2` rounded toward negative infinity.
fn half_floor(v: i64) -> (r: i64)
    ensures
        r == v as int / 2,
{
    if v >= 0 {
        v / 2
    } else {
        -((-(v + 1)) / 2) - 1
    }
}

} // verus!
