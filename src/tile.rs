//! Tile kinds and their hitboxes within a cell.
use vstd::prelude::*;

use crate::geometry::{Rect, Vec2, UNITS_PER_PIXEL};

verus! {

/// Which edge of its cell a directional tile is attached against.
#[derive(Clone, Copy, Debug, PartialEq, Eq, Structural)]
pub enum Facing {
    Up,
    Down,
    Left,
    Right,
}

/// Orientation of a portal.
#[derive(Clone, Copy, Debug, PartialEq, Eq, Structural)]
pub enum Axis {
    Vertical,
    Horizontal,
}

/// The content of one grid cell.
#[derive(Clone, Copy, Debug, PartialEq, Eq, Structural)]
pub enum Tile {
    Empty,
    Solid,
    Spike(Facing),
    Portal(Axis),
    Key,
    Spring(Facing),
}

/// Inset of a key's hitbox from each edge of its cell.
pub const KEY_INSET: i64 = 4 * UNITS_PER_PIXEL;

/// Largest magnitude of a cell position, and largest cell extent, that
/// `Tile::hbox` accepts.
pub const HBOX_LIMIT: i64 = 250_000_000_000_000;

/// `s * k / 16`, for a non-negative extent `s`.
pub open spec fn sixteenths(s: int, k: int) -> int {
    s * k / 16
}

pub open spec fn kind_name(t: Tile) -> Seq<char> {
    match t {
        Tile::Empty => "None"@,
        Tile::Solid => "Solid"@,
        Tile::Spike(_) => "Spike"@,
        Tile::Portal(_) => "Portal"@,
        Tile::Key => "Key"@,
        Tile::Spring(_) => "Spring"@,
    }
}

/// Hitbox of a thin directional tile (spike or spring) in the cell at `p`
/// of extent `s`: it lies against the edge opposite to where it points,
/// 7/16 of the cell thick and 14/16 of it long, centred along that edge.
pub open spec fn thin_hbox(f: Facing, p: Vec2, s: Vec2) -> Rect {
    let side_x = sixteenths(s.x as int, 1);
    let side_y = sixteenths(s.y as int, 1);
    let front_x = sixteenths(s.x as int, 9);
    let front_y = sixteenths(s.y as int, 9);
    let long_x = sixteenths(s.x as int, 14);
    let long_y = sixteenths(s.y as int, 14);
    let thick_x = sixteenths(s.x as int, 7);
    let thick_y = sixteenths(s.y as int, 7);
    match f {
        Facing::Up => Rect {
            x: (p.x + side_x) as i64,
            y: (p.y + front_y) as i64,
            w: long_x as i64,
            h: thick_y as i64,
        },
        Facing::Down => Rect { x: (p.x + side_x) as i64, y: p.y, w: long_x as i64, h: thick_y as i64 },
        Facing::Left => Rect {
            x: (p.x + front_x) as i64,
            y: (p.y + side_y) as i64,
            w: thick_x as i64,
            h: long_y as i64,
        },
        Facing::Right => Rect { x: p.x, y: (p.y + side_y) as i64, w: thick_x as i64, h: long_y as i64 },
    }
}

/// Hitbox of tile `t` in the cell whose top-left corner is `p` and whose
/// extent is `s`. An empty cell has the empty rectangle at the origin.
pub open spec fn tile_hbox(t: Tile, p: Vec2, s: Vec2) -> Rect {
    match t {
        Tile::Empty => Rect { x: 0, y: 0, w: 0, h: 0 },
        Tile::Solid | Tile::Portal(_) => Rect { x: p.x, y: p.y, w: s.x, h: s.y },
        Tile::Spike(f) | Tile::Spring(f) => thin_hbox(f, p, s),
        Tile::Key => Rect {
            x: (p.x + KEY_INSET) as i64,
            y: (p.y + KEY_INSET) as i64,
            w: (s.x - 2 * KEY_INSET) as i64,
            h: (s.y - 2 * KEY_INSET) as i64,
        },
    }
}

/// Bounds on a cell position and extent under which hitboxes are computed.
pub open spec fn cell_geometry_ok(p: Vec2, s: Vec2) -> bool {
    &&& -HBOX_LIMIT <= p.x <= HBOX_LIMIT
    &&& -HBOX_LIMIT <= p.y <= HBOX_LIMIT
    &&& 1 <= s.x <= HBOX_LIMIT
    &&& 1 <= s.y <= HBOX_LIMIT
}

pub proof fn lemma_hbox_bounded(t: Tile, p: Vec2, s: Vec2)
    requires
        cell_geometry_ok(p, s),
    ensures
        tile_hbox(t, p, s).bounded(),
        ({
            let r = tile_hbox(t, p, s);
            &&& t != Tile::Empty ==> p.x <= r.x && r.x + r.w <= p.x + s.x
            &&& t != Tile::Empty ==> p.y <= r.y && r.y + r.h <= p.y + s.y
            &&& -2 * KEY_INSET <= r.w <= s.x
            &&& -2 * KEY_INSET <= r.h <= s.y
        }),
{
    assert(0 <= sixteenths(s.x as int, 1) <= s.x) by (nonlinear_arith)
        requires s.x >= 1;
    assert(0 <= sixteenths(s.y as int, 1) <= s.y) by (nonlinear_arith)
        requires s.y >= 1;
    assert(0 <= sixteenths(s.x as int, 7) <= s.x) by (nonlinear_arith)
        requires s.x >= 1;
    assert(0 <= sixteenths(s.y as int, 7) <= s.y) by (nonlinear_arith)
        requires s.y >= 1;
    assert(0 <= sixteenths(s.x as int, 9) <= s.x) by (nonlinear_arith)
        requires s.x >= 1;
    assert(0 <= sixteenths(s.y as int, 9) <= s.y) by (nonlinear_arith)
        requires s.y >= 1;
    assert(0 <= sixteenths(s.x as int, 14) <= s.x) by (nonlinear_arith)
        requires s.x >= 1;
    assert(0 <= sixteenths(s.y as int, 14) <= s.y) by (nonlinear_arith)
        requires s.y >= 1;
    assert(sixteenths(s.x as int, 9) + sixteenths(s.x as int, 7) <= s.x) by (nonlinear_arith)
        requires s.x >= 1;
    assert(sixteenths(s.y as int, 9) + sixteenths(s.y as int, 7) <= s.y) by (nonlinear_arith)
        requires s.y >= 1;
    assert(sixteenths(s.x as int, 1) + sixteenths(s.x as int, 14) <= s.x) by (nonlinear_arith)
        requires s.x >= 1;
    assert(sixteenths(s.y as int, 1) + sixteenths(s.y as int, 14) <= s.y) by (nonlinear_arith)
        requires s.y >= 1;
}

fn sixteenths_of(s: i64, k: i64) -> (r: i64)
    requires
        1 <= s <= HBOX_LIMIT,
        0 <= k <= 16,
    ensures
        r == sixteenths(s as int, k as int),
        0 <= r <= s,
{
    assert(0 <= s * k <= s * 16) by (nonlinear_arith)
        requires 1 <= s, 0 <= k <= 16;
    s * k / 16
}

impl Tile {
    /// Name of the tile's kind, without its orientation.
    pub fn type_str(&self) -> (r: &'static str)
        ensures
            r@ == kind_name(*self),
    {
        match self {
            Tile::Empty => "None",
            Tile::Solid => "Solid",
            Tile::Spike(_) => "Spike",
            Tile::Portal(_) => "Portal",
            Tile::Key => "Key",
            Tile::Spring(_) => "Spring",
        }
    }

    /// The hitbox of this tile in the cell at `pos` of extent `size`.
    pub fn hbox(&self, pos: Vec2, size: Vec2) -> (r: Rect)
        requires
            cell_geometry_ok(pos, size),
        ensures
            r == tile_hbox(*self, pos, size),
            r.bounded(),
    {
        proof {
            lemma_hbox_bounded(*self, pos, size);
        }
        match *self {
            Tile::Empty => Rect::new(0, 0, 0, 0),
            Tile::Solid | Tile::Portal(_) => Rect::new(pos.x, pos.y, size.x, size.y),
            Tile::Spike(dir) | Tile::Spring(dir) => {
                let side_x = sixteenths_of(size.x, 1);
                let side_y = sixteenths_of(size.y, 1);
                let front_x = sixteenths_of(size.x, 9);
                let front_y = sixteenths_of(size.y, 9);
                let long_x = sixteenths_of(size.x, 14);
                let long_y = sixteenths_of(size.y, 14);
                let thick_x = sixteenths_of(size.x, 7);
                let thick_y = sixteenths_of(size.y, 7);
                match dir {
                    Facing::Up => Rect::new(pos.x + side_x, pos.y + front_y, long_x, thick_y),
                    Facing::Down => Rect::new(pos.x + side_x, pos.y, long_x, thick_y),
                    Facing::Left => Rect::new(pos.x + front_x, pos.y + side_y, thick_x, long_y),
                    Facing::Right => Rect::new(pos.x, pos.y + side_y, thick_x, long_y),
                }
            },
            Tile::Key => Rect::new(
                pos.x + KEY_INSET,
                pos.y + KEY_INSET,
                size.x - 2 * KEY_INSET,
                size.y - 2 * KEY_INSET,
            ),
        }
    }

    /// Re-orients a spike; any other tile is left as it is.
    pub fn set_facing(&mut self, facing: Facing)
        ensures
            *final(self) == (match *old(self) {
                Tile::Spike(_) => Tile::Spike(facing),
                t => t,
            }),
    {
        if let Tile::Spike(_) = *self {
            *self = Tile::Spike(facing);
        }
    }

    /// Re-orients a portal; any other tile is left as it is.
    pub fn set_axis(&mut self, axis: Axis)
        ensures
            *final(self) == (match *old(self) {
                Tile::Portal(_) => Tile::Portal(axis),
                t => t,
            }),
    {
        if let Tile::Portal(_) = *self {
            *self = Tile::Portal(axis);
        }
    }
}

} // verus!
