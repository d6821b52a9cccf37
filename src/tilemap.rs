//! A fixed-size grid of tiles, with cell/pixel conversion, resizing that
//! keeps the top-left overlap, and the ordered neighbourhood query that
//! collision handling runs on.
use vstd::prelude::*;

use vstd::arithmetic::div_mod::{
    lemma_fundamental_div_mod, lemma_fundamental_div_mod_converse_div, lemma_mod_pos_bound,
    lemma_fundamental_div_mod_converse_mod,
};

use crate::geometry::{Rect, Vec2};
use crate::tile::{cell_geometry_ok, tile_hbox, Tile, HBOX_LIMIT};

verus! {

/// Largest extent of a tilemap, in length units, along either axis.
pub const MAX_EXTENT: i64 = 1_000_000_000_000;

/// Largest magnitude of a coordinate at which the neighbourhood is queried.
pub const QUERY_LIMIT: i64 = 100_000_000_000_000;

/// Bound on the coordinates and extents of every hitbox that a neighbourhood
/// query returns.
pub const NEAR_LIMIT: i64 = 110_000_000_000_000;

pub open spec fn near(r: Rect) -> bool {
    &&& -NEAR_LIMIT <= r.x <= NEAR_LIMIT
    &&& -NEAR_LIMIT <= r.y <= NEAR_LIMIT
    &&& -NEAR_LIMIT <= r.x + r.w <= NEAR_LIMIT
    &&& -NEAR_LIMIT <= r.y + r.h <= NEAR_LIMIT
    &&& -NEAR_LIMIT <= r.w <= NEAR_LIMIT
    &&& -NEAR_LIMIT <= r.h <= NEAR_LIMIT
}

/// The mathematical content of a `Tilemap`.
pub struct TilemapView {
    /// Cells in row-major order.
    pub tiles: Seq<Tile>,
    pub width: usize,
    pub height: usize,
    pub tile_w: i64,
    pub tile_h: i64,
}

/// One entry of a neighbourhood query: a tile, its hitbox in world space and
/// the grid cell it was read from.
#[derive(Clone, Copy, Debug, PartialEq, Eq, Structural)]
pub struct Neighbor {
    pub tile: Tile,
    pub hbox: Rect,
    pub cell_x: usize,
    pub cell_y: usize,
}

/// The cell index along one axis that contains coordinate `q`; negative
/// coordinates fall in cell 0.
pub open spec fn query_cell(q: i64, t: i64) -> int {
    if q < 0 {
        0
    } else {
        q / t
    }
}

/// `i` clamped to the valid indices `0 .. n`.
pub open spec fn clamp_index(i: int, n: usize) -> int {
    if i < 0 {
        0
    } else if i >= n {
        n - 1
    } else {
        i
    }
}

/// Four times the squared Euclidean distance from `q` to the centre of `r`.
pub open spec fn distance_key(q: Vec2, r: Rect) -> int {
    let ex = 2 * q.x - r.center2_x();
    let ey = 2 * q.y - r.center2_y();
    ex * ex + ey * ey
}

pub open spec fn sorted_by_distance(s: Seq<Neighbor>, q: Vec2) -> bool {
    forall|i: int, j: int|
        0 <= i < j < s.len() ==> distance_key(q, #[trigger] s[i].hbox) <= distance_key(
            q,
            #[trigger] s[j].hbox,
        )
}

/// Where `x` goes in `s`: after every entry that is not farther than it.
pub open spec fn insert_position(s: Seq<Neighbor>, x: Neighbor, q: Vec2) -> int
    decreases s.len(),
{
    if s.len() == 0 {
        0
    } else if distance_key(q, s.last().hbox) <= distance_key(q, x.hbox) {
        s.len() as int
    } else {
        insert_position(s.drop_last(), x, q)
    }
}

/// Stable sort of `s` by ascending distance from `q` (insertion sort).
pub open spec fn sort_by_distance(s: Seq<Neighbor>, q: Vec2) -> Seq<Neighbor>
    decreases s.len(),
{
    if s.len() == 0 {
        s
    } else {
        let r = sort_by_distance(s.drop_last(), q);
        r.insert(insert_position(r, s.last(), q), s.last())
    }
}

pub open spec fn count_keys(s: Seq<Tile>) -> nat
    decreases s.len(),
{
    if s.len() == 0 {
        0
    } else {
        count_keys(s.drop_last()) + if s.last() == Tile::Key {
            1nat
        } else {
            0nat
        }
    }
}

impl TilemapView {
    pub open spec fn wf(self) -> bool {
        &&& self.tiles.len() == self.width * self.height
        &&& self.width * self.height <= usize::MAX
        &&& 1 <= self.tile_w
        &&& 1 <= self.tile_h
        &&& self.width * self.tile_w <= MAX_EXTENT
        &&& self.height * self.tile_h <= MAX_EXTENT
    }

    pub open spec fn in_bounds(self, x: int, y: int) -> bool {
        0 <= x < self.width && 0 <= y < self.height
    }

    pub open spec fn index(self, x: int, y: int) -> int {
        x + y * self.width
    }

    pub open spec fn cell(self, x: int, y: int) -> Tile {
        self.tiles[self.index(x, y)]
    }

    pub open spec fn tile_at(self, x: int, y: int) -> Option<Tile> {
        if self.in_bounds(x, y) {
            Some(self.cell(x, y))
        } else {
            None
        }
    }

    /// The grid with cell `(x, y)` set to `t`; unchanged when out of range.
    pub open spec fn set_tile(self, x: int, y: int, t: Tile) -> TilemapView {
        if self.in_bounds(x, y) {
            TilemapView { tiles: self.tiles.update(self.index(x, y), t), ..self }
        } else {
            self
        }
    }

    /// The area the grid covers, in length units, anchored at the origin.
    pub open spec fn rect(self) -> Rect {
        Rect {
            x: 0,
            y: 0,
            w: (self.width * self.tile_w) as i64,
            h: (self.height * self.tile_h) as i64,
        }
    }

    /// What cell `(x, y)` of a resized grid holds: the old content inside the
    /// old bounds, empty elsewhere.
    pub open spec fn kept_or_empty(self, x: int, y: int) -> Tile {
        if self.in_bounds(x, y) {
            self.cell(x, y)
        } else {
            Tile::Empty
        }
    }

    pub open spec fn resized(self, nw: usize, nh: usize) -> TilemapView {
        TilemapView {
            tiles: Seq::new(
                (nw * nh) as nat,
                |i: int| self.kept_or_empty(i % (nw as int), i / (nw as int)),
            ),
            width: nw,
            height: nh,
            ..self
        }
    }

    /// Entry `n` (0 to 8, row-major from the top-left) of the 3x3 block around
    /// the cell containing `q`. The tile is read from the cell clamped into
    /// the grid; the hitbox stands at the unclamped cell, so that edge tiles
    /// also guard the outside of the grid.
    pub open spec fn candidate(self, q: Vec2, n: int) -> Neighbor {
        let gx = query_cell(q.x, self.tile_w) + (n % 3 - 1);
        let gy = query_cell(q.y, self.tile_h) + (n / 3 - 1);
        let cx = clamp_index(gx, self.width);
        let cy = clamp_index(gy, self.height);
        let t = self.cell(cx, cy);
        Neighbor {
            tile: t,
            hbox: tile_hbox(
                t,
                Vec2 { x: (gx * self.tile_w) as i64, y: (gy * self.tile_h) as i64 },
                Vec2 { x: self.tile_w, y: self.tile_h },
            ),
            cell_x: cx as usize,
            cell_y: cy as usize,
        }
    }

    pub open spec fn candidates(self, q: Vec2) -> Seq<Neighbor> {
        if self.width == 0 || self.height == 0 {
            Seq::empty()
        } else {
            Seq::new(9, |n: int| self.candidate(q, n))
        }
    }

    /// The 3x3 neighbourhood of `q`, nearest hitbox centre first; entries at
    /// equal distance keep their block order.
    pub open spec fn neighbors(self, q: Vec2) -> Seq<Neighbor> {
        sort_by_distance(self.candidates(q), q)
    }
}

pub proof fn lemma_index_in_range(v: TilemapView, x: int, y: int)
    requires
        v.wf(),
        v.in_bounds(x, y),
    ensures
        0 <= v.index(x, y) < v.tiles.len(),
        0 <= y * v.width <= v.index(x, y),
{
    let w = v.width as int;
    let h = v.height as int;
    assert(0 <= y * w && 0 <= x + y * w < w * h) by (nonlinear_arith)
        requires 0 <= x < w, 0 <= y < h;
}

pub proof fn lemma_dims_small(v: TilemapView)
    requires
        v.wf(),
    ensures
        v.width <= MAX_EXTENT,
        v.height <= MAX_EXTENT,
        v.tile_w <= MAX_EXTENT || v.width == 0,
        v.tile_h <= MAX_EXTENT || v.height == 0,
{
    let w = v.width as int;
    let h = v.height as int;
    let tw = v.tile_w as int;
    let th = v.tile_h as int;
    assert(w <= w * tw) by (nonlinear_arith)
        requires tw >= 1, w >= 0;
    assert(h <= h * th) by (nonlinear_arith)
        requires th >= 1, h >= 0;
    assert(w == 0 || tw <= w * tw) by (nonlinear_arith)
        requires tw >= 1, w >= 0;
    assert(h == 0 || th <= h * th) by (nonlinear_arith)
        requires th >= 1, h >= 0;
}

proof fn lemma_insert_position_props(s: Seq<Neighbor>, x: Neighbor, q: Vec2)
    ensures
        0 <= insert_position(s, x, q) <= s.len(),
        forall|k: int|
            insert_position(s, x, q) <= k < s.len() ==> distance_key(q, x.hbox) < distance_key(
                q,
                #[trigger] s[k].hbox,
            ),
        insert_position(s, x, q) == 0 || distance_key(q, s[insert_position(s, x, q) - 1].hbox)
            <= distance_key(q, x.hbox),
    decreases s.len(),
{
    if s.len() > 0 && distance_key(q, s.last().hbox) > distance_key(q, x.hbox) {
        let d = s.drop_last();
        lemma_insert_position_props(d, x, q);
        assert forall|k: int|
            insert_position(s, x, q) <= k < s.len() implies distance_key(q, x.hbox) < distance_key(
            q,
            #[trigger] s[k].hbox,
        ) by {
            if k < d.len() {
                assert(s[k] == d[k]);
            }
        }
    }
}

/// Scanning back from the end past every farther entry finds `insert_position`.
proof fn lemma_insert_position_is(s: Seq<Neighbor>, x: Neighbor, q: Vec2, j: int)
    requires
        0 <= j <= s.len(),
        forall|k: int|
            j <= k < s.len() ==> distance_key(q, x.hbox) < distance_key(q, #[trigger] s[k].hbox),
        j == 0 || distance_key(q, s[j - 1].hbox) <= distance_key(q, x.hbox),
    ensures
        insert_position(s, x, q) == j,
    decreases s.len(),
{
    if s.len() > 0 {
        if distance_key(q, s.last().hbox) <= distance_key(q, x.hbox) {
            assert(j == s.len());
        } else {
            let d = s.drop_last();
            assert forall|k: int| j <= k < d.len() implies distance_key(q, x.hbox) < distance_key(
                q,
                #[trigger] d[k].hbox,
            ) by {
                assert(d[k] == s[k]);
            }
            lemma_insert_position_is(d, x, q, j);
        }
    }
}

/// Sorting yields an ordered permutation of its input.
pub proof fn lemma_sort_by_distance(s: Seq<Neighbor>, q: Vec2)
    ensures
        sorted_by_distance(sort_by_distance(s, q), q),
        sort_by_distance(s, q).to_multiset() == s.to_multiset(),
        sort_by_distance(s, q).len() == s.len(),
    decreases s.len(),
{
    broadcast use vstd::multiset::group_multiset_axioms;
    broadcast use vstd::seq_lib::group_to_multiset_ensures;

    if s.len() > 0 {
        let d = s.drop_last();
        let x = s.last();
        lemma_sort_by_distance(d, q);
        let r = sort_by_distance(d, q);
        let p = insert_position(r, x, q);
        lemma_insert_position_props(r, x, q);
        let r2 = r.insert(p, x);
        r.insert_ensures(p, x);
        assert(r2 == sort_by_distance(s, q));
        assert forall|i: int, j: int| 0 <= i < j < r2.len() implies distance_key(
            q,
            #[trigger] r2[i].hbox,
        ) <= distance_key(q, #[trigger] r2[j].hbox) by {
            if j < p {
            } else if j == p {
                if i < p - 1 {
                    assert(distance_key(q, r[i].hbox) <= distance_key(q, r[p - 1].hbox));
                }
            } else if i < p {
                assert(r2[j] == r[j - 1]);
            } else if i == p {
                assert(r2[j] == r[j - 1]);
            } else {
                assert(r2[j] == r[j - 1]);
                assert(r2[i] == r[i - 1]);
            }
        }
        assert(r2.remove(p) =~= r);
        assert(r2.to_multiset().count(x) > 0) by {
            assert(r2.contains(x)) by {
                assert(r2[p] == x);
            }
        }
        assert(r2.to_multiset() =~= r.to_multiset().insert(x));
        assert(d.push(x) =~= s);
    }
}

/// Every entry of the 3x3 block has a hitbox near the origin.
pub proof fn lemma_candidate_near(v: TilemapView, q: Vec2, n: int)
    requires
        v.wf(),
        v.width > 0,
        v.height > 0,
        0 <= n < 9,
        -QUERY_LIMIT <= q.x <= QUERY_LIMIT,
        -QUERY_LIMIT <= q.y <= QUERY_LIMIT,
    ensures
        near(v.candidate(q, n).hbox),
        v.in_bounds(v.candidate(q, n).cell_x as int, v.candidate(q, n).cell_y as int),
        v.candidate(q, n).tile == v.cell(
            v.candidate(q, n).cell_x as int,
            v.candidate(q, n).cell_y as int,
        ),
        cell_geometry_ok(
            Vec2 {
                x: ((query_cell(q.x, v.tile_w) + (n % 3 - 1)) * v.tile_w) as i64,
                y: ((query_cell(q.y, v.tile_h) + (n / 3 - 1)) * v.tile_h) as i64,
            },
            Vec2 { x: v.tile_w, y: v.tile_h },
        ),
{
    lemma_dims_small(v);
    let tw = v.tile_w as int;
    let th = v.tile_h as int;
    let qcx = query_cell(q.x, v.tile_w);
    let qcy = query_cell(q.y, v.tile_h);
    assert(0 <= qcx * tw <= QUERY_LIMIT) by {
        if q.x >= 0 {
            lemma_fundamental_div_mod(q.x as int, tw);
            lemma_mod_pos_bound(q.x as int, tw);
            let d = q.x as int / tw;
            let x = q.x as int;
            let m = x % tw;
            assert(0 <= d * tw <= x) by (nonlinear_arith)
                requires x == tw * d + m, 0 <= m < tw, x >= 0, tw >= 1;
        }
    }
    assert(0 <= qcy * th <= QUERY_LIMIT) by {
        if q.y >= 0 {
            lemma_fundamental_div_mod(q.y as int, th);
            lemma_mod_pos_bound(q.y as int, th);
            let d = q.y as int / th;
            let y = q.y as int;
            let m = y % th;
            assert(0 <= d * th <= y) by (nonlinear_arith)
                requires y == th * d + m, 0 <= m < th, y >= 0, th >= 1;
        }
    }
    assert(qcx >= 0 && qcy >= 0);
    let dx = n % 3 - 1;
    let dy = n / 3 - 1;
    let gx = qcx + dx;
    let gy = qcy + dy;
    assert(-tw <= gx * tw <= QUERY_LIMIT + tw) by (nonlinear_arith)
        requires gx == qcx + dx, -1 <= dx <= 1, 0 <= qcx * tw <= QUERY_LIMIT, tw >= 1, qcx >= 0;
    assert(-th <= gy * th <= QUERY_LIMIT + th) by (nonlinear_arith)
        requires gy == qcy + dy, -1 <= dy <= 1, 0 <= qcy * th <= QUERY_LIMIT, th >= 1, qcy >= 0;
    let p = Vec2 { x: (gx * tw) as i64, y: (gy * th) as i64 };
    let sz = Vec2 { x: v.tile_w, y: v.tile_h };
    crate::tile::lemma_hbox_bounded(v.candidate(q, n).tile, p, sz);
}

/// Every entry of a neighbourhood has a hitbox near the origin and names a
/// cell of the grid that holds its tile.
pub proof fn lemma_neighbors_near(v: TilemapView, q: Vec2)
    requires
        v.wf(),
        -QUERY_LIMIT <= q.x <= QUERY_LIMIT,
        -QUERY_LIMIT <= q.y <= QUERY_LIMIT,
    ensures
        forall|i: int|
            0 <= i < v.neighbors(q).len() ==> {
                let nb = #[trigger] v.neighbors(q)[i];
                &&& near(nb.hbox)
                &&& v.in_bounds(nb.cell_x as int, nb.cell_y as int)
                &&& nb.tile == v.cell(nb.cell_x as int, nb.cell_y as int)
            },
{
    broadcast use vstd::seq_lib::group_to_multiset_ensures;

    let c = v.candidates(q);
    let s = v.neighbors(q);
    lemma_sort_by_distance(c, q);
    assert forall|i: int| 0 <= i < s.len() implies {
        let nb = #[trigger] s[i];
        &&& near(nb.hbox)
        &&& v.in_bounds(nb.cell_x as int, nb.cell_y as int)
        &&& nb.tile == v.cell(nb.cell_x as int, nb.cell_y as int)
    } by {
        assert(s.contains(s[i]));
        assert(s.to_multiset().count(s[i]) > 0);
        assert(c.contains(s[i]));
        let k = choose|k: int| 0 <= k < c.len() && c[k] == s[i];
        lemma_candidate_near(v, q, k);
    }
}

/// Resizing to the current dimensions changes nothing.
pub proof fn lemma_resize_same_size(v: TilemapView)
    requires
        v.wf(),
    ensures
        v.resized(v.width, v.height) == v,
{
    let r = v.resized(v.width, v.height);
    let w = v.width as int;
    assert forall|i: int| 0 <= i < r.tiles.len() implies r.tiles[i] == v.tiles[i] by {
        lemma_fundamental_div_mod(i, w);
        let x = i % w;
        let y = i / w;
        assert(0 <= x < w);
        assert(0 <= y < v.height) by (nonlinear_arith)
            requires i == w * y + x, 0 <= x < w, i < w * v.height, 0 <= i;
        assert(x + y * w == i) by (nonlinear_arith)
            requires i == w * y + x;
    }
    assert(r.tiles =~= v.tiles);
}

/// Cell `(x, y)` of a resized grid, in terms of the grid before.
pub proof fn lemma_resized_cell(v: TilemapView, nw: usize, nh: usize, x: int, y: int)
    requires
        0 <= x < nw,
        0 <= y < nh,
    ensures
        v.resized(nw, nh).cell(x, y) == v.kept_or_empty(x, y),
        0 <= v.resized(nw, nh).index(x, y) < v.resized(nw, nh).tiles.len(),
{
    let i = x + y * nw;
    assert(0 <= i < nw * nh) by (nonlinear_arith)
        requires 0 <= x < nw, 0 <= y < nh, i == x + y * nw;
    assert(i == y * nw + x) by (nonlinear_arith)
        requires i == x + y * nw;
    lemma_fundamental_div_mod_converse_mod(i, nw as int, y, x);
    lemma_fundamental_div_mod_converse_div(i, nw as int, y, x);
}

/// Shrinking and then growing a grid keeps exactly the top-left region that
/// all three sizes share; every other cell of the result is empty.
pub proof fn lemma_resize_round_trip(v: TilemapView, w1: usize, h1: usize, w2: usize, h2: usize)
    requires
        v.wf(),
    ensures
        v.resized(w1, h1).resized(w2, h2).width == w2,
        v.resized(w1, h1).resized(w2, h2).height == h2,
        forall|x: int, y: int|
            0 <= x < w2 && 0 <= y < h2 ==> #[trigger] v.resized(w1, h1).resized(w2, h2).cell(x, y)
                == if x < w1 && y < h1 && v.in_bounds(x, y) {
                v.cell(x, y)
            } else {
                Tile::Empty
            },
{
    let r1 = v.resized(w1, h1);
    assert forall|x: int, y: int| 0 <= x < w2 && 0 <= y < h2 implies #[trigger] r1.resized(
        w2,
        h2,
    ).cell(x, y) == if x < w1 && y < h1 && v.in_bounds(x, y) {
        v.cell(x, y)
    } else {
        Tile::Empty
    } by {
        lemma_resized_cell(r1, w2, h2, x, y);
        if x < w1 && y < h1 {
            lemma_resized_cell(v, w1, h1, x, y);
        }
    }
}

/// The neighbourhood comes nearest first, and holds exactly the nine
/// entries of the clamped 3x3 block (none for a grid without cells).
pub proof fn lemma_neighbors_ordered(v: TilemapView, q: Vec2)
    ensures
        sorted_by_distance(v.neighbors(q), q),
        v.neighbors(q).to_multiset() == v.candidates(q).to_multiset(),
        v.neighbors(q).len() == if v.width == 0 || v.height == 0 {
            0nat
        } else {
            9nat
        },
{
    lemma_sort_by_distance(v.candidates(q), q);
}

/// Replacing one cell changes the key count by what left and what came.
pub proof fn lemma_count_keys_update(s: Seq<Tile>, i: int, t: Tile)
    requires
        0 <= i < s.len(),
    ensures
        count_keys(s.update(i, t)) + (if s[i] == Tile::Key {
            1int
        } else {
            0int
        }) == count_keys(s) + (if t == Tile::Key {
            1int
        } else {
            0int
        }),
    decreases s.len(),
{
    if i < s.len() - 1 {
        assert(s.update(i, t).drop_last() =~= s.drop_last().update(i, t));
        lemma_count_keys_update(s.drop_last(), i, t);
    } else {
        assert(s.update(i, t).drop_last() =~= s.drop_last());
    }
}

pub proof fn lemma_count_keys_le(s: Seq<Tile>)
    ensures
        count_keys(s) <= s.len(),
    decreases s.len(),
{
    if s.len() > 0 {
        lemma_count_keys_le(s.drop_last());
    }
}

/// A tile grid of fixed dimensions. Reads and writes outside the grid find
/// nothing and change nothing.
#[derive(Clone, Debug)]
pub struct Tilemap {
    tiles: Vec<Tile>,
    width: usize,
    height: usize,
    tile_w: i64,
    tile_h: i64,
}

impl View for Tilemap {
    type V = TilemapView;

    closed spec fn view(&self) -> TilemapView {
        TilemapView {
            tiles: self.tiles@,
            width: self.width,
            height: self.height,
            tile_w: self.tile_w,
            tile_h: self.tile_h,
        }
    }
}

fn empty_tiles(n: usize) -> (r: Vec<Tile>)
    ensures
        r@ == Seq::new(n as nat, |i: int| Tile::Empty),
{
    let mut v: Vec<Tile> = Vec::new();
    let mut i: usize = 0;
    while i < n
        invariant
            i <= n,
            v@ == Seq::new(i as nat, |k: int| Tile::Empty),
        decreases n - i,
    {
        v.push(Tile::Empty);
        i = i + 1;
        assert(v@ =~= Seq::new(i as nat, |k: int| Tile::Empty));
    }
    v
}

/// Four times the squared distance from `q` to the centre of `r`.
fn distance_key_of(q: Vec2, r: Rect) -> (k: i128)
    requires
        -QUERY_LIMIT <= q.x <= QUERY_LIMIT,
        -QUERY_LIMIT <= q.y <= QUERY_LIMIT,
        r.bounded(),
    ensures
        k == distance_key(q, r),
{
    let ex: i128 = 2 * (q.x as i128) - (2 * (r.x as i128) + r.w as i128);
    let ey: i128 = 2 * (q.y as i128) - (2 * (r.y as i128) + r.h as i128);
    assert(0 <= ex * ex <= 100_000_000_000_000_000_000_000_000_000_000) by (nonlinear_arith)
        requires -10_000_000_000_000_000 <= ex <= 10_000_000_000_000_000;
    assert(0 <= ey * ey <= 100_000_000_000_000_000_000_000_000_000_000) by (nonlinear_arith)
        requires -10_000_000_000_000_000 <= ey <= 10_000_000_000_000_000;
    ex * ex + ey * ey
}

impl Tilemap {
    pub open spec fn wf(&self) -> bool {
        self@.wf()
    }

    /// A grid of `map_size` cells, all empty, each `tile_size` units large.
    pub fn new(map_size: (usize, usize), tile_size: (i64, i64)) -> (r: Tilemap)
        requires
            1 <= tile_size.0,
            1 <= tile_size.1,
            map_size.0 * tile_size.0 <= MAX_EXTENT,
            map_size.1 * tile_size.1 <= MAX_EXTENT,
            map_size.0 * map_size.1 <= usize::MAX,
        ensures
            r.wf(),
            r@.width == map_size.0,
            r@.height == map_size.1,
            r@.tile_w == tile_size.0,
            r@.tile_h == tile_size.1,
            r@.tiles == Seq::new((map_size.0 * map_size.1) as nat, |i: int| Tile::Empty),
    {
        Tilemap {
            tiles: empty_tiles(map_size.0 * map_size.1),
            width: map_size.0,
            height: map_size.1,
            tile_w: tile_size.0,
            tile_h: tile_size.1,
        }
    }

    pub fn tile_width(&self) -> (r: i64)
        ensures
            r == self@.tile_w,
    {
        self.tile_w
    }

    pub fn tile_height(&self) -> (r: i64)
        ensures
            r == self@.tile_h,
    {
        self.tile_h
    }

    pub fn tile_size(&self) -> (r: Vec2)
        ensures
            r == (Vec2 { x: self@.tile_w, y: self@.tile_h }),
    {
        Vec2::new(self.tile_w, self.tile_h)
    }

    /// Width and height, in cells.
    pub fn size(&self) -> (r: (usize, usize))
        ensures
            r == (self@.width, self@.height),
    {
        (self.width, self.height)
    }

    /// The cells in row-major order.
    pub fn tiles(&self) -> (r: &[Tile])
        ensures
            r@ == self@.tiles,
    {
        self.tiles.as_slice()
    }

    /// The area the grid covers, in length units.
    pub fn rect(&self) -> (r: Rect)
        requires
            self.wf(),
        ensures
            r == self@.rect(),
    {
        proof {
            lemma_dims_small(self@);
        }
        Rect::new(0, 0, self.width as i64 * self.tile_w, self.height as i64 * self.tile_h)
    }

    /// How many cells hold a key.
    pub fn keys_amount(&self) -> (r: usize)
        ensures
            r == count_keys(self@.tiles),
    {
        let mut count: usize = 0;
        let mut i: usize = 0;
        while i < self.tiles.len()
            invariant
                i <= self.tiles.len(),
                count == count_keys(self.tiles@.take(i as int)),
                count <= i,
            decreases self.tiles.len() - i,
        {
            assert(self.tiles@.take(i as int + 1).drop_last() =~= self.tiles@.take(i as int));
            if self.tiles[i] == Tile::Key {
                count = count + 1;
            }
            i = i + 1;
        }
        assert(self.tiles@.take(i as int) =~= self.tiles@);
        count
    }

    /// The tile at cell `(x, y)`, or `None` outside the grid.
    pub fn tile_at(&self, x: usize, y: usize) -> (r: Option<Tile>)
        requires
            self.wf(),
        ensures
            r == self@.tile_at(x as int, y as int),
    {
        if x < self.width && y < self.height {
            proof {
                lemma_index_in_range(self@, x as int, y as int);
            }
            Some(self.tiles[x + y * self.width])
        } else {
            None
        }
    }

    /// The cell containing a non-negative position (division truncates).
    pub fn world_to_cell(&self, pos: Vec2) -> (r: (i64, i64))
        requires
            self.wf(),
            0 <= pos.x,
            0 <= pos.y,
        ensures
            r.0 == pos.x / self@.tile_w,
            r.1 == pos.y / self@.tile_h,
    {
        (pos.x / self.tile_w, pos.y / self.tile_h)
    }

    /// The top-left corner of the cell containing a non-negative position.
    pub fn snap(&self, pos: Vec2) -> (r: Vec2)
        requires
            self.wf(),
            0 <= pos.x,
            0 <= pos.y,
        ensures
            r.x == pos.x / self@.tile_w * self@.tile_w,
            r.y == pos.y / self@.tile_h * self@.tile_h,
    {
        let tw = self.tile_w;
        let th = self.tile_h;
        assert(0 <= pos.x / tw * tw <= pos.x) by {
            lemma_fundamental_div_mod(pos.x as int, tw as int);
        }
        assert(0 <= pos.y / th * th <= pos.y) by {
            lemma_fundamental_div_mod(pos.y as int, th as int);
        }
        Vec2::new(pos.x / tw * tw, pos.y / th * th)
    }

    /// Sets the cell containing position `pos`; a negative coordinate, or a
    /// cell outside the grid, leaves the grid unchanged.
    pub fn set_tile_f32(&mut self, pos: Vec2, tile: Tile)
        requires
            old(self).wf(),
        ensures
            final(self).wf(),
            final(self)@ == (if pos.x < 0 || pos.y < 0 {
                old(self)@
            } else {
                old(self)@.set_tile(pos.x / old(self)@.tile_w, pos.y / old(self)@.tile_h, tile)
            }),
    {
        if pos.x < 0 || pos.y < 0 {
            return;
        }
        proof {
            lemma_dims_small(self@);
        }
        let (cx, cy) = self.world_to_cell(pos);
        if cx < self.width as i64 && cy < self.height as i64 {
            self.set_tile_usize((cx as usize, cy as usize), tile);
        }
    }

    /// Sets cell `pos`; out of range, nothing changes.
    pub fn set_tile_usize(&mut self, pos: (usize, usize), tile: Tile)
        requires
            old(self).wf(),
        ensures
            final(self).wf(),
            final(self)@ == old(self)@.set_tile(pos.0 as int, pos.1 as int, tile),
    {
        if pos.0 < self.width && pos.1 < self.height {
            proof {
                lemma_index_in_range(self@, pos.0 as int, pos.1 as int);
            }
            let index = pos.0 + pos.1 * self.width;
            self.tiles.set(index, tile);
        }
    }

    /// Entry `n` of the 3x3 block around cell `(qcx, qcy)`.
    fn candidate_at(&self, pos: Vec2, qcx: i64, qcy: i64, n: i64) -> (r: Neighbor)
        requires
            self.wf(),
            self@.width > 0,
            self@.height > 0,
            0 <= n < 9,
            qcx == query_cell(pos.x, self@.tile_w),
            qcy == query_cell(pos.y, self@.tile_h),
            -QUERY_LIMIT <= pos.x <= QUERY_LIMIT,
            -QUERY_LIMIT <= pos.y <= QUERY_LIMIT,
        ensures
            r == self@.candidate(pos, n as int),
            near(r.hbox),
    {
        proof {
            lemma_dims_small(self@);
            lemma_candidate_near(self@, pos, n as int);
        }
        let tw = self.tile_w;
        let th = self.tile_h;
        assert(0 <= qcx * tw <= QUERY_LIMIT) by {
            if pos.x >= 0 {
                lemma_fundamental_div_mod(pos.x as int, tw as int);
            }
        }
        assert(0 <= qcy * th <= QUERY_LIMIT) by {
            if pos.y >= 0 {
                lemma_fundamental_div_mod(pos.y as int, th as int);
            }
        }
        assert(qcx <= QUERY_LIMIT) by (nonlinear_arith)
            requires 0 <= qcx * tw <= QUERY_LIMIT, tw >= 1;
        assert(qcy <= QUERY_LIMIT) by (nonlinear_arith)
            requires 0 <= qcy * th <= QUERY_LIMIT, th >= 1;
        let dx: i64 = n % 3 - 1;
        let dy: i64 = n / 3 - 1;
        let gx = qcx + dx;
        let gy = qcy + dy;
        assert(-tw <= gx * tw <= QUERY_LIMIT + tw) by (nonlinear_arith)
            requires gx == qcx + dx, -1 <= dx <= 1, 0 <= qcx * tw <= QUERY_LIMIT, tw >= 1, qcx >= 0;
        assert(-th <= gy * th <= QUERY_LIMIT + th) by (nonlinear_arith)
            requires gy == qcy + dy, -1 <= dy <= 1, 0 <= qcy * th <= QUERY_LIMIT, th >= 1, qcy >= 0;
        let cx: usize = if gx < 0 {
            0
        } else if gx >= self.width as i64 {
            self.width - 1
        } else {
            gx as usize
        };
        let cy: usize = if gy < 0 {
            0
        } else if gy >= self.height as i64 {
            self.height - 1
        } else {
            gy as usize
        };
        proof {
            lemma_index_in_range(self@, cx as int, cy as int);
        }
        let t = self.tiles[cx + cy * self.width];
        let cell_pos = Vec2::new(gx * tw, gy * th);
        let size = Vec2::new(tw, th);
        assert(cell_geometry_ok(cell_pos, size));
        let hbox = t.hbox(cell_pos, size);
        Neighbor { tile: t, hbox, cell_x: cx, cell_y: cy }
    }

    /// The tiles of the 3x3 block of cells around `pos`, with their hitboxes,
    /// nearest hitbox centre first (see `TilemapView::neighbors`).
    pub fn get_neigbor_tile_hboxes(&self, pos: Vec2) -> (r: Vec<Neighbor>)
        requires
            self.wf(),
            -QUERY_LIMIT <= pos.x <= QUERY_LIMIT,
            -QUERY_LIMIT <= pos.y <= QUERY_LIMIT,
        ensures
            r@ == self@.neighbors(pos),
            forall|i: int| 0 <= i < r@.len() ==> near((#[trigger] r@[i]).hbox),
    {
        let mut cands: Vec<Neighbor> = Vec::new();
        if self.width > 0 && self.height > 0 {
            let qcx: i64 = if pos.x < 0 {
                0
            } else {
                pos.x / self.tile_w
            };
            let qcy: i64 = if pos.y < 0 {
                0
            } else {
                pos.y / self.tile_h
            };
            let mut n: i64 = 0;
            while n < 9
                invariant
                    self.wf(),
                    self@.width > 0,
                    self@.height > 0,
                    0 <= n <= 9,
                    qcx == query_cell(pos.x, self@.tile_w),
                    qcy == query_cell(pos.y, self@.tile_h),
                    -QUERY_LIMIT <= pos.x <= QUERY_LIMIT,
                    -QUERY_LIMIT <= pos.y <= QUERY_LIMIT,
                    cands@ == Seq::new(n as nat, |k: int| self@.candidate(pos, k)),
                    forall|i: int| 0 <= i < cands@.len() ==> near((#[trigger] cands@[i]).hbox),
                decreases 9 - n,
            {
                let c = self.candidate_at(pos, qcx, qcy, n);
                cands.push(c);
                n = n + 1;
                assert(cands@ =~= Seq::new(n as nat, |k: int| self@.candidate(pos, k)));
            }
        }
        assert(cands@ =~= self@.candidates(pos));
        let mut sorted: Vec<Neighbor> = Vec::new();
        let mut i: usize = 0;
        while i < cands.len()
            invariant
                i <= cands@.len(),
                -QUERY_LIMIT <= pos.x <= QUERY_LIMIT,
                -QUERY_LIMIT <= pos.y <= QUERY_LIMIT,
                forall|k: int| 0 <= k < cands@.len() ==> near((#[trigger] cands@[k]).hbox),
                sorted@ == sort_by_distance(cands@.take(i as int), pos),
                forall|k: int| 0 <= k < sorted@.len() ==> near((#[trigger] sorted@[k]).hbox),
            decreases cands@.len() - i,
        {
            let x = cands[i];
            proof {
                lemma_sort_by_distance(cands@.take(i as int), pos);
            }
            let kx = distance_key_of(pos, x.hbox);
            let mut j: usize = sorted.len();
            while j > 0 && distance_key_of(pos, sorted[j - 1].hbox) > kx
                invariant
                    j <= sorted@.len(),
                    -QUERY_LIMIT <= pos.x <= QUERY_LIMIT,
                    -QUERY_LIMIT <= pos.y <= QUERY_LIMIT,
                    kx == distance_key(pos, x.hbox),
                    forall|k: int| 0 <= k < sorted@.len() ==> near((#[trigger] sorted@[k]).hbox),
                    forall|k: int|
                        j <= k < sorted@.len() ==> kx < distance_key(pos, #[trigger] sorted@[k].hbox),
                decreases j,
            {
                j = j - 1;
            }
            proof {
                lemma_insert_position_is(sorted@, x, pos, j as int);
                assert(cands@.take(i as int + 1).drop_last() =~= cands@.take(i as int));
            }
            let ghost before = sorted@;
            sorted.insert(j, x);
            proof {
                before.insert_ensures(j as int, x);
                assert forall|k: int| 0 <= k < sorted@.len() implies near((#[trigger] sorted@[k]).hbox) by {
                    if k < j {
                    } else if k > j {
                        assert(sorted@[k] == before[k - 1]);
                    }
                }
            }
            i = i + 1;
            proof {
                lemma_sort_by_distance(cands@.take(i as int), pos);
            }
        }
        assert(cands@.take(i as int) =~= cands@);
        sorted
    }

    /// Changes the dimensions, keeping the content of the top-left region
    /// that the old and new grids share; new cells are empty.
    pub fn resize(&mut self, new_size: (usize, usize))
        requires
            old(self).wf(),
            new_size.0 * old(self)@.tile_w <= MAX_EXTENT,
            new_size.1 * old(self)@.tile_h <= MAX_EXTENT,
            new_size.0 * new_size.1 <= usize::MAX,
        ensures
            final(self).wf(),
            final(self)@ == old(self)@.resized(new_size.0, new_size.1),
    {
        let (nw, nh) = new_size;
        let ghost v = self@;
        let mut new_map: Vec<Tile> = Vec::new();
        let mut y: usize = 0;
        while y < nh
            invariant
                self@ == v,
                v.wf(),
                nw * nh <= usize::MAX,
                y <= nh,
                new_map@.len() == y * nw,
                forall|i: int|
                    0 <= i < new_map@.len() ==> #[trigger] new_map@[i] == v.kept_or_empty(
                        i % (nw as int),
                        i / (nw as int),
                    ),
            decreases nh - y,
        {
            let mut x: usize = 0;
            while x < nw
                invariant
                    self@ == v,
                    v.wf(),
                    nw * nh <= usize::MAX,
                    y < nh,
                    x <= nw,
                    new_map@.len() == y * nw + x,
                    forall|i: int|
                        0 <= i < new_map@.len() ==> #[trigger] new_map@[i] == v.kept_or_empty(
                            i % (nw as int),
                            i / (nw as int),
                        ),
                decreases nw - x,
            {
                assert(y * nw + x < nw * nh) by (nonlinear_arith)
                    requires x < nw, y < nh;
                let t = if x < self.width && y < self.height {
                    proof {
                        lemma_index_in_range(v, x as int, y as int);
                    }
                    self.tiles[x + y * self.width]
                } else {
                    Tile::Empty
                };
                let ghost k = new_map@.len() as int;
                new_map.push(t);
                proof {
                    lemma_fundamental_div_mod_converse_mod(k, nw as int, y as int, x as int);
                    lemma_fundamental_div_mod_converse_div(k, nw as int, y as int, x as int);
                    assert(new_map@[k] == v.kept_or_empty(k % (nw as int), k / (nw as int)));
                }
                x = x + 1;
            }
            assert((y + 1) * nw == y * nw + nw) by (nonlinear_arith);
            y = y + 1;
        }
        proof {
            assert(y * nw == nw * nh) by (nonlinear_arith)
                requires y == nh;
            assert(new_map@ =~= v.resized(nw, nh).tiles);
        }
        self.tiles = new_map;
        self.width = nw;
        self.height = nh;
    }
}

} // verus!
