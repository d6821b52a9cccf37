//! One level in play: two tilemaps, the player, keys, and the tick rules.
use vstd::prelude::*;

use crate::geometry::{overlaps, Rect, Vec2};
use crate::player::{lemma_updated_wf, Input, Player, PLAYER_SQUARE};
use crate::tile::{Axis, Tile};
use crate::tilemap::{
    count_keys, lemma_count_keys_le, lemma_count_keys_update, lemma_dims_small,
    lemma_index_in_range, lemma_neighbors_near, near, Neighbor, Tilemap, TilemapView, MAX_EXTENT,
};

verus! {

/// Bound on the player's coordinates between ticks of a level in play.
pub const PLAY_LIMIT: i64 = 2_000_000_000_000;

/// Bound on the player's coordinates while a tick resolves collisions.
pub const RESOLVE_LIMIT: i64 = 200_000_000_000_000;

/// Which of the two tilemaps is solid for the player.
#[derive(Clone, Copy, Debug, PartialEq, Eq, Structural)]
pub enum WorldMode {
    Dark,
    Light,
}

pub open spec fn mode_name(m: WorldMode) -> Seq<char> {
    match m {
        WorldMode::Dark => "Dark"@,
        WorldMode::Light => "Light"@,
    }
}

impl WorldMode {
    pub open spec fn other(self) -> WorldMode {
        match self {
            WorldMode::Dark => WorldMode::Light,
            WorldMode::Light => WorldMode::Dark,
        }
    }

    pub fn next(&self) -> (r: WorldMode)
        ensures
            r == self.other(),
    {
        match *self {
            WorldMode::Dark => WorldMode::Light,
            WorldMode::Light => WorldMode::Dark,
        }
    }

    pub fn switch(&mut self)
        ensures
            *final(self) == old(self).other(),
    {
        *self = self.next();
    }

    /// The mode's name, as shown to the player.
    pub fn name(&self) -> (r: &'static str)
        ensures
            r@ == mode_name(*self),
    {
        match self {
            WorldMode::Dark => "Dark",
            WorldMode::Light => "Light",
        }
    }
}

/// A cell from which a key was taken.
pub type KeyCell = (usize, usize);

/// The mathematical content of a `World`.
pub struct WorldView {
    pub player: Player,
    pub dark: TilemapView,
    pub light: TilemapView,
    pub mode: WorldMode,
    pub spawn_pos: Vec2,
    pub end_rect: Rect,
    /// Cells of the dark tilemap whose key was taken since the last reset.
    pub dark_keys: Seq<KeyCell>,
    /// Cells of the light tilemap whose key was taken since the last reset.
    pub light_keys: Seq<KeyCell>,
    pub keys_required: usize,
    pub keys_collected: usize,
    pub won: bool,
    /// The dark tilemap's cells as the level began.
    pub dark_start: Seq<Tile>,
    /// The light tilemap's cells as the level began.
    pub light_start: Seq<Tile>,
}

/// `t` with a key put back at every cell of `ks`.
pub open spec fn restore(t: TilemapView, ks: Seq<KeyCell>) -> TilemapView
    decreases ks.len(),
{
    if ks.len() == 0 {
        t
    } else {
        restore(t, ks.drop_last()).set_tile(ks.last().0 as int, ks.last().1 as int, Tile::Key)
    }
}

/// Whether `k` is the in-range cell of `t` with flat index `i`.
pub open spec fn restored_cell(t: TilemapView, k: KeyCell, i: int) -> bool {
    t.in_bounds(k.0 as int, k.1 as int) && t.index(k.0 as int, k.1 as int) == i
}

/// Whether some cell of `ks` is the in-range cell with flat index `i`.
pub open spec fn restores_index(t: TilemapView, ks: Seq<KeyCell>, i: int) -> bool {
    exists|j: int| 0 <= j < ks.len() && #[trigger] restored_cell(t, ks[j], i)
}

/// Motion phase, one neighbour: a solid tile blocks (vertical response
/// first), a portal that the body crosses switches the world.
pub open spec fn gather_step(pm: (Player, WorldMode), nb: Neighbor) -> (Player, WorldMode) {
    match nb.tile {
        Tile::Solid => (pm.0.after_collision_y(nb.hbox).after_collision_x(nb.hbox), pm.1),
        Tile::Portal(axis) => if pm.0.crosses_portal(nb.hbox, axis) {
            (
                Player { portal_traversed: true, ..pm.0 }.after_world_change(pm.1.other()),
                pm.1.other(),
            )
        } else {
            pm
        },
        _ => pm,
    }
}

/// The motion phase over the neighbours `ns`, in order.
pub open spec fn gathered(pm: (Player, WorldMode), ns: Seq<Neighbor>) -> (Player, WorldMode)
    decreases ns.len(),
{
    if ns.len() == 0 {
        pm
    } else {
        gather_step(gathered(pm, ns.drop_last()), ns.last())
    }
}

/// Key phase, one neighbour: a key whose hitbox meets the player's hitbox
/// `h`, and that is still in its cell, is taken: the cell empties, is
/// recorded, and counted.
pub open spec fn collect_step(
    st: (TilemapView, Seq<KeyCell>, usize),
    nb: Neighbor,
    h: Rect,
) -> (TilemapView, Seq<KeyCell>, usize) {
    if nb.tile == Tile::Key && overlaps(h, nb.hbox) && st.0.tile_at(
        nb.cell_x as int,
        nb.cell_y as int,
    ) == Some(Tile::Key) {
        (
            st.0.set_tile(nb.cell_x as int, nb.cell_y as int, Tile::Empty),
            st.1.push((nb.cell_x, nb.cell_y)),
            (st.2 + 1) as usize,
        )
    } else {
        st
    }
}

pub open spec fn collected(
    st: (TilemapView, Seq<KeyCell>, usize),
    ns: Seq<Neighbor>,
    h: Rect,
) -> (TilemapView, Seq<KeyCell>, usize)
    decreases ns.len(),
{
    if ns.len() == 0 {
        st
    } else {
        collect_step(collected(st, ns.drop_last(), h), ns.last(), h)
    }
}

/// Whether a spike among `ns` meets the hitbox `h`.
pub open spec fn touches_spike(ns: Seq<Neighbor>, h: Rect) -> bool {
    exists|i: int| 0 <= i < ns.len() && #[trigger] ns[i].tile is Spike && overlaps(ns[i].hbox, h)
}

/// Spring phase: every spring among `ns` that meets `h` acts, in order.
pub open spec fn sprung(p: Player, ns: Seq<Neighbor>, h: Rect) -> Player
    decreases ns.len(),
{
    if ns.len() == 0 {
        p
    } else {
        let q = sprung(p, ns.drop_last(), h);
        match ns.last().tile {
            Tile::Spring(f) => if overlaps(h, ns.last().hbox) {
                q.after_spring(f)
            } else {
                q
            },
            _ => q,
        }
    }
}

pub open spec fn in_play(p: Vec2) -> bool {
    &&& -PLAY_LIMIT <= p.x <= PLAY_LIMIT
    &&& -PLAY_LIMIT <= p.y <= PLAY_LIMIT
}

pub open spec fn resolving(p: Vec2) -> bool {
    &&& -RESOLVE_LIMIT <= p.x <= RESOLVE_LIMIT
    &&& -RESOLVE_LIMIT <= p.y <= RESOLVE_LIMIT
}

impl WorldView {
    pub open spec fn map_of(self, m: WorldMode) -> TilemapView {
        match m {
            WorldMode::Dark => self.dark,
            WorldMode::Light => self.light,
        }
    }

    pub open spec fn keys_of(self, m: WorldMode) -> Seq<KeyCell> {
        match m {
            WorldMode::Dark => self.dark_keys,
            WorldMode::Light => self.light_keys,
        }
    }

    /// The tilemap the player collides with.
    pub open spec fn active(self) -> TilemapView {
        self.map_of(self.mode)
    }

    pub open spec fn active_keys(self) -> Seq<KeyCell> {
        self.keys_of(self.mode)
    }

    /// The view with the tilemap and key record of `m` replaced.
    pub open spec fn with_map(self, m: WorldMode, t: TilemapView, ks: Seq<KeyCell>) -> WorldView {
        match m {
            WorldMode::Dark => WorldView { dark: t, dark_keys: ks, ..self },
            WorldMode::Light => WorldView { light: t, light_keys: ks, ..self },
        }
    }

    /// Back to the start of the level: a fresh player at the spawn point in
    /// the dark world, every taken key back in its cell, nothing collected.
    pub open spec fn reset(self) -> WorldView {
        WorldView {
            player: Player::spawned(self.spawn_pos),
            mode: WorldMode::Dark,
            won: false,
            dark: restore(self.dark, self.dark_keys),
            light: restore(self.light, self.light_keys),
            dark_keys: Seq::empty(),
            light_keys: Seq::empty(),
            keys_collected: 0,
            ..self
        }
    }

    /// The player after control and gravity, before collisions.
    pub open spec fn tick_player(self, input: Input) -> Player {
        self.player.updated(input)
    }

    /// The neighbourhood this tick collides with, around the player's centre.
    pub open spec fn tick_neighbors(self, input: Input) -> Seq<Neighbor> {
        self.active().neighbors(self.tick_player(input).center())
    }

    /// Player and mode after the motion phase.
    pub open spec fn tick_motion(self, input: Input) -> (Player, WorldMode) {
        gathered((self.tick_player(input), self.mode), self.tick_neighbors(input))
    }

    /// The player after this tick's move.
    pub open spec fn moved_player(self, input: Input) -> Player {
        self.tick_motion(input).0.moved()
    }

    /// Whether the move of this tick wins: every key was held before the
    /// tick, and the player reaches the end.
    pub open spec fn wins(self, input: Input) -> bool {
        self.keys_collected == self.keys_required && overlaps(
            self.moved_player(input).hbox(),
            self.end_rect,
        )
    }

    /// One tick of play, in fixed phases: control and gravity; the motion
    /// phase against the active tilemap's neighbourhood (solids, then at
    /// most one portal); the move; the win check, which ends the tick; key
    /// pickup on the tilemap that was active when the tick began; spike
    /// death, which resets and ends the tick; springs; and a reset when the
    /// reset key was pressed or the player has left that tilemap's area.
    /// A won level stands still.
    pub open spec fn tick(self, input: Input) -> WorldView {
        if self.won {
            self
        } else {
            let ns = self.tick_neighbors(input);
            let mode = self.tick_motion(input).1;
            let p = self.moved_player(input);
            let h = p.hbox();
            if self.wins(input) {
                WorldView { player: p, mode, won: true, ..self }
            } else {
                let st = collected(
                    (self.active(), self.active_keys(), self.keys_collected),
                    ns,
                    h,
                );
                let v2 = WorldView {
                    player: p,
                    mode,
                    keys_collected: st.2,
                    ..self.with_map(self.mode, st.0, st.1)
                };
                if touches_spike(ns, h) {
                    v2.reset()
                } else {
                    let v3 = WorldView { player: sprung(p, ns, h), ..v2 };
                    if input.reset || !overlaps(self.active().rect(), h) {
                        v3.reset()
                    } else {
                        v3
                    }
                }
            }
        }
    }

    /// The invariant of a level in play.
    pub open spec fn wf(self) -> bool {
        &&& self.player.wf()
        &&& self.player.placed()
        &&& !self.won ==> in_play(self.player.position)
        &&& self.maps_wf()
    }

    /// The part of the invariant that does not concern the player: valid
    /// grids, and a record of taken keys that accounts for every key of the
    /// level.
    pub open spec fn maps_wf(self) -> bool {
        &&& self.dark.wf()
        &&& self.light.wf()
        &&& -MAX_EXTENT <= self.spawn_pos.x <= MAX_EXTENT
        &&& -MAX_EXTENT <= self.spawn_pos.y <= MAX_EXTENT
        &&& self.end_rect.bounded()
        &&& restore(self.dark, self.dark_keys).tiles == self.dark_start
        &&& restore(self.light, self.light_keys).tiles == self.light_start
        &&& self.keys_collected + count_keys(self.dark.tiles) + count_keys(self.light.tiles)
            == self.keys_required
        &&& count_keys(self.dark_start) + count_keys(self.light_start) == self.keys_required
    }
}

proof fn lemma_restore_dims(t: TilemapView, ks: Seq<KeyCell>)
    requires
        t.wf(),
    ensures
        restore(t, ks) == (TilemapView { tiles: restore(t, ks).tiles, ..t }),
        restore(t, ks).wf(),
{
    lemma_restore(t, ks);
}

proof fn lemma_restore(t: TilemapView, ks: Seq<KeyCell>)
    requires
        t.wf(),
    ensures
        restore(t, ks) == (TilemapView { tiles: restore(t, ks).tiles, ..t }),
        restore(t, ks).tiles.len() == t.tiles.len(),
        forall|i: int|
            0 <= i < t.tiles.len() ==> #[trigger] restore(t, ks).tiles[i] == if restores_index(
                t,
                ks,
                i,
            ) {
                Tile::Key
            } else {
                t.tiles[i]
            },
    decreases ks.len(),
{
    if ks.len() > 0 {
        let d = ks.drop_last();
        let k = ks.last();
        lemma_restore(t, d);
        if t.in_bounds(k.0 as int, k.1 as int) {
            lemma_index_in_range(t, k.0 as int, k.1 as int);
        }
        assert forall|i: int| 0 <= i < t.tiles.len() implies #[trigger] restore(t, ks).tiles[i]
            == if restores_index(t, ks, i) {
            Tile::Key
        } else {
            t.tiles[i]
        } by {
            if restores_index(t, d, i) {
                let j = choose|j: int| 0 <= j < d.len() && #[trigger] restored_cell(t, d[j], i);
                assert(ks[j] == d[j]);
                assert(restored_cell(t, ks[j], i));
            }
            if restores_index(t, ks, i) {
                let j = choose|j: int| 0 <= j < ks.len() && #[trigger] restored_cell(t, ks[j], i);
                if j < d.len() {
                    assert(d[j] == ks[j]);
                    assert(restored_cell(t, d[j], i));
                }
            }
            if restored_cell(t, k, i) {
                assert(ks[ks.len() - 1] == k);
                assert(restored_cell(t, ks[ks.len() - 1], i));
            }
        }
    }
}

proof fn lemma_collect_step(
    st: (TilemapView, Seq<KeyCell>, usize),
    nb: Neighbor,
    h: Rect,
    start: Seq<Tile>,
    quota: int,
)
    requires
        st.0.wf(),
        restore(st.0, st.1).tiles == start,
        st.2 + count_keys(st.0.tiles) == quota,
        quota <= usize::MAX,
    ensures
        ({
            let r = collect_step(st, nb, h);
            &&& r.0 == (TilemapView { tiles: r.0.tiles, ..st.0 })
            &&& r.0.wf()
            &&& restore(r.0, r.1).tiles == start
            &&& r.2 + count_keys(r.0.tiles) == quota
        }),
{
    if nb.tile == Tile::Key && overlaps(h, nb.hbox) && st.0.tile_at(
        nb.cell_x as int,
        nb.cell_y as int,
    ) == Some(Tile::Key) {
        let t = st.0;
        let ks = st.1;
        let cx = nb.cell_x as int;
        let cy = nb.cell_y as int;
        lemma_index_in_range(t, cx, cy);
        let idx = t.index(cx, cy);
        let t2 = t.set_tile(cx, cy, Tile::Empty);
        lemma_count_keys_update(t.tiles, idx, Tile::Empty);
        assert(ks.push((nb.cell_x, nb.cell_y)).drop_last() =~= ks);
        lemma_restore(t2, ks);
        lemma_restore(t, ks);
        let lhs = restore(t2, ks.push((nb.cell_x, nb.cell_y)));
        assert(lhs == restore(t2, ks).set_tile(cx, cy, Tile::Key));
        assert forall|i: int| 0 <= i < t.tiles.len() implies lhs.tiles[i] == restore(
            t,
            ks,
        ).tiles[i] by {
            if i != idx {
                assert(restore(t2, ks).tiles[i] == restore(t, ks).tiles[i]) by {
                    if restores_index(t2, ks, i) {
                        let j = choose|j: int|
                            0 <= j < ks.len() && #[trigger] restored_cell(t2, ks[j], i);
                        assert(restored_cell(t, ks[j], i));
                    }
                    if restores_index(t, ks, i) {
                        let j = choose|j: int|
                            0 <= j < ks.len() && #[trigger] restored_cell(t, ks[j], i);
                        assert(restored_cell(t2, ks[j], i));
                    }
                }
            }
        }
        assert(lhs.tiles =~= restore(t, ks).tiles);
    }
}

proof fn lemma_collected(
    st: (TilemapView, Seq<KeyCell>, usize),
    ns: Seq<Neighbor>,
    h: Rect,
    start: Seq<Tile>,
    quota: int,
)
    requires
        st.0.wf(),
        restore(st.0, st.1).tiles == start,
        st.2 + count_keys(st.0.tiles) == quota,
        quota <= usize::MAX,
    ensures
        ({
            let r = collected(st, ns, h);
            &&& r.0 == (TilemapView { tiles: r.0.tiles, ..st.0 })
            &&& r.0.wf()
            &&& restore(r.0, r.1).tiles == start
            &&& r.2 + count_keys(r.0.tiles) == quota
        }),
    decreases ns.len(),
{
    if ns.len() > 0 {
        lemma_collected(st, ns.drop_last(), h, start, quota);
        lemma_collect_step(collected(st, ns.drop_last(), h), ns.last(), h, start, quota);
    }
}

/// The motion phase keeps the body's invariant and keeps it within the
/// range where collisions are resolved.
proof fn lemma_gathered_bounds(pm: (Player, WorldMode), ns: Seq<Neighbor>)
    requires
        pm.0.wf(),
        resolving(pm.0.position),
        forall|i: int| 0 <= i < ns.len() ==> near(#[trigger] ns[i].hbox),
    ensures
        gathered(pm, ns).0.wf(),
        resolving(gathered(pm, ns).0.position),
    decreases ns.len(),
{
    if ns.len() > 0 {
        let d = ns.drop_last();
        assert forall|i: int| 0 <= i < d.len() implies near(#[trigger] d[i].hbox) by {
            assert(d[i] == ns[i]);
        }
        lemma_gathered_bounds(pm, d);
        assert(near(ns[ns.len() - 1].hbox));
    }
}

/// Springs change only the body's speed and flags.
proof fn lemma_sprung(p: Player, ns: Seq<Neighbor>, h: Rect)
    requires
        p.wf(),
    ensures
        sprung(p, ns, h).wf(),
        sprung(p, ns, h).position == p.position,
    decreases ns.len(),
{
    if ns.len() > 0 {
        lemma_sprung(p, ns.drop_last(), h);
    }
}

/// A mode switch happens in the motion phase exactly when a portal is
/// crossed, and a tick crosses at most one portal: the mode after the phase
/// is the other one precisely when the crossing flag was raised.
pub proof fn lemma_portal_one_shot(pm: (Player, WorldMode), ns: Seq<Neighbor>)
    requires
        !pm.0.portal_traversed,
    ensures
        gathered(pm, ns).1 == if gathered(pm, ns).0.portal_traversed {
            pm.1.other()
        } else {
            pm.1
        },
    decreases ns.len(),
{
    if ns.len() > 0 {
        lemma_portal_one_shot(pm, ns.drop_last());
    }
}

/// Within a tick, the world switches exactly when the player crosses a
/// portal, and at most once, however many portals the neighbourhood holds.
pub proof fn lemma_tick_portal_once(v: WorldView, input: Input)
    ensures
        v.tick_motion(input).1 == if v.tick_motion(input).0.portal_traversed {
            v.mode.other()
        } else {
            v.mode
        },
{
    lemma_portal_one_shot((v.tick_player(input), v.mode), v.tick_neighbors(input));
}

/// A player that has crossed a portal this tick crosses no other.
pub proof fn lemma_crossed_portal_blocks(p: Player, r: Rect, axis: Axis)
    requires
        p.portal_traversed,
    ensures
        !p.crosses_portal(r, axis),
{
}

/// Reset puts every taken key back where it was taken, so that both grids
/// are again as the level began, and clears the count of collected keys.
pub proof fn lemma_reset_restores_keys(v: WorldView)
    requires
        v.maps_wf(),
    ensures
        v.reset().wf(),
        v.reset().dark.tiles == v.dark_start,
        v.reset().light.tiles == v.light_start,
        v.reset().keys_collected == 0,
        v.reset().player == Player::spawned(v.spawn_pos),
        v.reset().mode == WorldMode::Dark,
        !v.reset().won,
        forall|j: int|
            0 <= j < v.dark_keys.len() && v.dark.in_bounds(
                v.dark_keys[j].0 as int,
                v.dark_keys[j].1 as int,
            ) ==> v.reset().dark.cell(v.dark_keys[j].0 as int, v.dark_keys[j].1 as int)
                == Tile::Key,
        forall|j: int|
            0 <= j < v.light_keys.len() && v.light.in_bounds(
                v.light_keys[j].0 as int,
                v.light_keys[j].1 as int,
            ) ==> v.reset().light.cell(v.light_keys[j].0 as int, v.light_keys[j].1 as int)
                == Tile::Key,
{
    lemma_restore(v.dark, v.dark_keys);
    lemma_restore(v.light, v.light_keys);
    let r = v.reset();
    lemma_restore(r.dark, r.dark_keys);
    lemma_restore(r.light, r.light_keys);
    assert forall|j: int|
        0 <= j < v.dark_keys.len() && v.dark.in_bounds(
            v.dark_keys[j].0 as int,
            v.dark_keys[j].1 as int,
        ) implies r.dark.cell(v.dark_keys[j].0 as int, v.dark_keys[j].1 as int) == Tile::Key by {
        let k = v.dark_keys[j];
        lemma_index_in_range(v.dark, k.0 as int, k.1 as int);
        assert(restored_cell(v.dark, v.dark_keys[j], v.dark.index(k.0 as int, k.1 as int)));
    }
    assert forall|j: int|
        0 <= j < v.light_keys.len() && v.light.in_bounds(
            v.light_keys[j].0 as int,
            v.light_keys[j].1 as int,
        ) implies r.light.cell(v.light_keys[j].0 as int, v.light_keys[j].1 as int)
        == Tile::Key by {
        let k = v.light_keys[j];
        lemma_index_in_range(v.light, k.0 as int, k.1 as int);
        assert(restored_cell(v.light, v.light_keys[j], v.light.index(k.0 as int, k.1 as int)));
    }
}

/// A tick keeps the invariant of a level in play.
pub proof fn lemma_tick_wf(v: WorldView, input: Input)
    requires
        v.wf(),
    ensures
        v.tick(input).wf(),
{
    if !v.won {
        let p1 = v.tick_player(input);
        lemma_updated_wf(v.player, input);
        let ns = v.tick_neighbors(input);
        lemma_neighbors_near(v.active(), p1.center());
        lemma_gathered_bounds((p1, v.mode), ns);
        let p = v.moved_player(input);
        let h = p.hbox();
        if !v.wins(input) {
            let other_count = match v.mode {
                WorldMode::Dark => count_keys(v.light.tiles),
                WorldMode::Light => count_keys(v.dark.tiles),
            };
            let start = match v.mode {
                WorldMode::Dark => v.dark_start,
                WorldMode::Light => v.light_start,
            };
            lemma_collected(
                (v.active(), v.active_keys(), v.keys_collected),
                ns,
                h,
                start,
                v.keys_required - other_count,
            );
            let st = collected((v.active(), v.active_keys(), v.keys_collected), ns, h);
            let v2 = WorldView {
                player: p,
                mode: v.tick_motion(input).1,
                keys_collected: st.2,
                ..v.with_map(v.mode, st.0, st.1)
            };
            assert(v2.maps_wf());
            lemma_reset_restores_keys(v2);
            lemma_sprung(p, ns, h);
            let v3 = WorldView { player: sprung(p, ns, h), ..v2 };
            assert(v3.maps_wf());
            lemma_reset_restores_keys(v3);
        }
    }
}

/// Winning: a tick wins exactly when every key of the level was held
/// before it and the moved player meets the end, so a key taken in the same
/// tick as the end is reached does not count; a won level does not change.
pub proof fn lemma_win_gating(v: WorldView, input: Input)
    ensures
        v.won ==> v.tick(input) == v,
        !v.won ==> (v.tick(input).won <==> (v.keys_collected == v.keys_required && overlaps(
            v.moved_player(input).hbox(),
            v.end_rect,
        ))),
        !v.won && v.tick(input).won ==> v.tick(input).player == v.moved_player(input),
{
}

/// A tick in which the moved player meets a spike, and does not win, ends
/// in a reset: the spring phase never runs, whatever springs are touched.
pub proof fn lemma_spike_resets(v: WorldView, input: Input)
    requires
        !v.won,
        !v.wins(input),
        touches_spike(v.tick_neighbors(input), v.moved_player(input).hbox()),
    ensures
        v.tick(input).player == Player::spawned(v.spawn_pos),
        v.tick(input).mode == WorldMode::Dark,
        v.tick(input).keys_collected == 0,
        !v.tick(input).won,
{
}

/// A level as handed over for play. Name and author are carried for display.
pub struct Level {
    pub name: String,
    pub author: String,
    pub dark_tilemap: Tilemap,
    pub light_tilemap: Tilemap,
    pub spawn_pos: Vec2,
    pub end_pos: Vec2,
}

/// A level in play.
pub struct World {
    player: Player,
    dark_tilemap: Tilemap,
    light_tilemap: Tilemap,
    mode: WorldMode,
    spawn_pos: Vec2,
    end_rect: Rect,
    dark_keys: Vec<KeyCell>,
    light_keys: Vec<KeyCell>,
    keys_amount: usize,
    got_keys: usize,
    win: bool,
    dark_start: Ghost<Seq<Tile>>,
    light_start: Ghost<Seq<Tile>>,
}

impl View for World {
    type V = WorldView;

    closed spec fn view(&self) -> WorldView {
        WorldView {
            player: self.player,
            dark: self.dark_tilemap@,
            light: self.light_tilemap@,
            mode: self.mode,
            spawn_pos: self.spawn_pos,
            end_rect: self.end_rect,
            dark_keys: self.dark_keys@,
            light_keys: self.light_keys@,
            keys_required: self.keys_amount,
            keys_collected: self.got_keys,
            won: self.win,
            dark_start: self.dark_start@,
            light_start: self.light_start@,
        }
    }
}

/// Puts a key back at every cell of `ks`.
fn restore_keys(t: &mut Tilemap, ks: &Vec<KeyCell>)
    requires
        old(t).wf(),
    ensures
        final(t)@ == restore(old(t)@, ks@),
        final(t).wf(),
{
    let ghost t0 = t@;
    let mut i: usize = 0;
    while i < ks.len()
        invariant
            i <= ks@.len(),
            t0.wf(),
            t.wf(),
            t@ == restore(t0, ks@.take(i as int)),
        decreases ks@.len() - i,
    {
        proof {
            lemma_restore_dims(t0, ks@.take(i as int));
            assert(ks@.take(i as int + 1).drop_last() =~= ks@.take(i as int));
        }
        t.set_tile_usize(ks[i], Tile::Key);
        i = i + 1;
    }
    assert(ks@.take(i as int) =~= ks@);
}

/// Whether a spike among `ns` meets `h`.
fn touches_any_spike(ns: &Vec<Neighbor>, h: &Rect) -> (r: bool)
    requires
        h.bounded(),
        forall|i: int| 0 <= i < ns@.len() ==> near(#[trigger] ns@[i].hbox),
    ensures
        r == touches_spike(ns@, *h),
{
    let mut i: usize = 0;
    while i < ns.len()
        invariant
            i <= ns@.len(),
            h.bounded(),
            forall|k: int| 0 <= k < ns@.len() ==> near(#[trigger] ns@[k].hbox),
            forall|k: int|
                0 <= k < i ==> !(#[trigger] ns@[k].tile is Spike && overlaps(ns@[k].hbox, *h)),
        decreases ns@.len() - i,
    {
        let nb = ns[i];
        if let Tile::Spike(_) = nb.tile {
            if nb.hbox.intersects(h) {
                return true;
            }
        }
        i = i + 1;
    }
    false
}

impl World {
    pub open spec fn wf(&self) -> bool {
        self@.wf()
    }

    /// The level at its start: the player at the spawn point in the dark
    /// world, no key taken, the end one cell large at the end point.
    pub fn new(level: Level) -> (r: World)
        requires
            level.dark_tilemap.wf(),
            level.light_tilemap.wf(),
            level.dark_tilemap@.width > 0,
            level.dark_tilemap@.height > 0,
            -MAX_EXTENT <= level.spawn_pos.x <= MAX_EXTENT,
            -MAX_EXTENT <= level.spawn_pos.y <= MAX_EXTENT,
            -MAX_EXTENT <= level.end_pos.x <= MAX_EXTENT,
            -MAX_EXTENT <= level.end_pos.y <= MAX_EXTENT,
            level.dark_tilemap@.tiles.len() + level.light_tilemap@.tiles.len() <= usize::MAX,
        ensures
            r.wf(),
            r@ == (WorldView {
                player: Player::spawned(level.spawn_pos),
                dark: level.dark_tilemap@,
                light: level.light_tilemap@,
                mode: WorldMode::Dark,
                spawn_pos: level.spawn_pos,
                end_rect: Rect {
                    x: level.end_pos.x,
                    y: level.end_pos.y,
                    w: level.dark_tilemap@.tile_w,
                    h: level.dark_tilemap@.tile_h,
                },
                dark_keys: Seq::empty(),
                light_keys: Seq::empty(),
                keys_required: (count_keys(level.dark_tilemap@.tiles) + count_keys(
                    level.light_tilemap@.tiles,
                )) as usize,
                keys_collected: 0,
                won: false,
                dark_start: level.dark_tilemap@.tiles,
                light_start: level.light_tilemap@.tiles,
            }),
    {
        let Level { dark_tilemap, light_tilemap, spawn_pos, end_pos, .. } = level;
        proof {
            lemma_dims_small(dark_tilemap@);
            lemma_count_keys_le(dark_tilemap@.tiles);
            lemma_count_keys_le(light_tilemap@.tiles);
        }
        let tile_size = dark_tilemap.tile_size();
        let keys_amount = dark_tilemap.keys_amount() + light_tilemap.keys_amount();
        let ghost dark_start = dark_tilemap@.tiles;
        let ghost light_start = light_tilemap@.tiles;
        World {
            player: Player::new(spawn_pos),
            dark_tilemap,
            light_tilemap,
            mode: WorldMode::Dark,
            spawn_pos,
            end_rect: Rect::new(end_pos.x, end_pos.y, tile_size.x, tile_size.y),
            dark_keys: Vec::new(),
            light_keys: Vec::new(),
            keys_amount,
            got_keys: 0,
            win: false,
            dark_start: Ghost(dark_start),
            light_start: Ghost(light_start),
        }
    }

    /// Back to the start of the level (see `WorldView::reset`).
    pub fn reset(&mut self)
        requires
            old(self)@.maps_wf(),
        ensures
            final(self)@ == old(self)@.reset(),
            final(self).wf(),
    {
        proof {
            lemma_reset_restores_keys(self@);
        }
        let ghost v = self@;
        self.win = false;
        self.player = Player::new(self.spawn_pos);
        self.mode = WorldMode::Dark;
        restore_keys(&mut self.dark_tilemap, &self.dark_keys);
        restore_keys(&mut self.light_tilemap, &self.light_keys);
        self.dark_keys = Vec::new();
        self.light_keys = Vec::new();
        self.got_keys = 0;
    }

    /// Motion phase of a tick: solid tiles block, a crossed portal switches
    /// the world.
    fn resolve_motion(&mut self, ns: &Vec<Neighbor>)
        requires
            old(self).player.wf(),
            resolving(old(self).player.position),
            forall|i: int| 0 <= i < ns@.len() ==> near(#[trigger] ns@[i].hbox),
        ensures
            final(self)@ == (WorldView {
                player: gathered((old(self)@.player, old(self)@.mode), ns@).0,
                mode: gathered((old(self)@.player, old(self)@.mode), ns@).1,
                ..old(self)@
            }),
    {
        let ghost v = self@;
        let mut i: usize = 0;
        while i < ns.len()
            invariant
                i <= ns@.len(),
                forall|k: int| 0 <= k < ns@.len() ==> near(#[trigger] ns@[k].hbox),
                v.player.wf(),
                resolving(v.player.position),
                self@ == (WorldView {
                    player: gathered((v.player, v.mode), ns@.take(i as int)).0,
                    mode: gathered((v.player, v.mode), ns@.take(i as int)).1,
                    ..v
                }),
            decreases ns@.len() - i,
        {
            proof {
                let t = ns@.take(i as int);
                assert forall|k: int| 0 <= k < t.len() implies near(#[trigger] t[k].hbox) by {
                    assert(t[k] == ns@[k]);
                }
                lemma_gathered_bounds((v.player, v.mode), t);
                assert(ns@.take(i as int + 1).drop_last() =~= t);
            }
            let nb = ns[i];
            match nb.tile {
                Tile::Solid => {
                    self.player.solve_collision_y(&nb.hbox);
                    self.player.solve_collision_x(&nb.hbox);
                },
                Tile::Portal(axis) => {
                    if self.player.can_traverse_portal(&nb.hbox, axis) {
                        self.mode.switch();
                        self.player.on_world_change(self.mode);
                    }
                },
                _ => {},
            }
            i = i + 1;
        }
        assert(ns@.take(i as int) =~= ns@);
    }

    /// Key phase of a tick, on the tilemap of mode `m`.
    fn collect_keys(&mut self, m: WorldMode, ns: &Vec<Neighbor>, h: &Rect)
        requires
            old(self)@.maps_wf(),
            h.bounded(),
            forall|i: int| 0 <= i < ns@.len() ==> near(#[trigger] ns@[i].hbox),
        ensures
            ({
                let st = collected(
                    (old(self)@.map_of(m), old(self)@.keys_of(m), old(self)@.keys_collected),
                    ns@,
                    *h,
                );
                final(self)@ == (WorldView {
                    keys_collected: st.2,
                    ..old(self)@.with_map(m, st.0, st.1)
                })
            }),
            final(self)@.maps_wf(),
    {
        let ghost v = self@;
        let ghost st0 = (v.map_of(m), v.keys_of(m), v.keys_collected);
        let ghost start = match m {
            WorldMode::Dark => v.dark_start,
            WorldMode::Light => v.light_start,
        };
        let ghost quota = v.keys_required - match m {
            WorldMode::Dark => count_keys(v.light.tiles),
            WorldMode::Light => count_keys(v.dark.tiles),
        };
        let mut i: usize = 0;
        while i < ns.len()
            invariant
                i <= ns@.len(),
                h.bounded(),
                forall|k: int| 0 <= k < ns@.len() ==> near(#[trigger] ns@[k].hbox),
                v.maps_wf(),
                st0 == (v.map_of(m), v.keys_of(m), v.keys_collected),
                start == match m {
                    WorldMode::Dark => v.dark_start,
                    WorldMode::Light => v.light_start,
                },
                quota == v.keys_required - match m {
                    WorldMode::Dark => count_keys(v.light.tiles),
                    WorldMode::Light => count_keys(v.dark.tiles),
                },
                ({
                    let st = collected(st0, ns@.take(i as int), *h);
                    self@ == (WorldView { keys_collected: st.2, ..v.with_map(m, st.0, st.1) })
                }),
            decreases ns@.len() - i,
        {
            proof {
                let t = ns@.take(i as int);
                lemma_collected(st0, t, *h, start, quota);
                lemma_collect_step(collected(st0, t, *h), ns@[i as int], *h, start, quota);
                assert(ns@.take(i as int + 1).drop_last() =~= t);
            }
            let nb = ns[i];
            if nb.tile == Tile::Key && h.intersects(&nb.hbox) {
                let cell = (nb.cell_x, nb.cell_y);
                match m {
                    WorldMode::Dark => {
                        if let Some(Tile::Key) = self.dark_tilemap.tile_at(cell.0, cell.1) {
                            proof {
                                let d = self.dark_tilemap@;
                                lemma_index_in_range(d, cell.0 as int, cell.1 as int);
                                lemma_count_keys_update(
                                    d.tiles,
                                    d.index(cell.0 as int, cell.1 as int),
                                    Tile::Empty,
                                );
                            }
                            self.dark_tilemap.set_tile_usize(cell, Tile::Empty);
                            self.dark_keys.push(cell);
                            self.got_keys = self.got_keys + 1;
                        }
                    },
                    WorldMode::Light => {
                        if let Some(Tile::Key) = self.light_tilemap.tile_at(cell.0, cell.1) {
                            proof {
                                let d = self.light_tilemap@;
                                lemma_index_in_range(d, cell.0 as int, cell.1 as int);
                                lemma_count_keys_update(
                                    d.tiles,
                                    d.index(cell.0 as int, cell.1 as int),
                                    Tile::Empty,
                                );
                            }
                            self.light_tilemap.set_tile_usize(cell, Tile::Empty);
                            self.light_keys.push(cell);
                            self.got_keys = self.got_keys + 1;
                        }
                    },
                }
            }
            i = i + 1;
        }
        assert(ns@.take(i as int) =~= ns@);
        proof {
            lemma_collected(st0, ns@, *h, start, quota);
        }
    }

    /// Spring phase of a tick.
    fn apply_springs(&mut self, ns: &Vec<Neighbor>, h: &Rect)
        requires
            h.bounded(),
            forall|i: int| 0 <= i < ns@.len() ==> near(#[trigger] ns@[i].hbox),
        ensures
            final(self)@ == (WorldView { player: sprung(old(self)@.player, ns@, *h), ..old(self)@ }),
    {
        let ghost v = self@;
        let mut i: usize = 0;
        while i < ns.len()
            invariant
                i <= ns@.len(),
                h.bounded(),
                forall|k: int| 0 <= k < ns@.len() ==> near(#[trigger] ns@[k].hbox),
                self@ == (WorldView { player: sprung(v.player, ns@.take(i as int), *h), ..v }),
            decreases ns@.len() - i,
        {
            proof {
                assert(ns@.take(i as int + 1).drop_last() =~= ns@.take(i as int));
            }
            let nb = ns[i];
            if let Tile::Spring(dir) = nb.tile {
                if h.intersects(&nb.hbox) {
                    self.player.on_spring(dir);
                }
            }
            i = i + 1;
        }
        assert(ns@.take(i as int) =~= ns@);
    }

    /// One tick of play (see `WorldView::tick`).
    pub fn update(&mut self, input: &Input)
        requires
            old(self).wf(),
        ensures
            final(self)@ == old(self)@.tick(*input),
            final(self).wf(),
    {
        proof {
            lemma_tick_wf(self@, *input);
        }
        if self.win {
            return;
        }
        let ghost v = self@;
        self.player.update(input);
        proof {
            lemma_updated_wf(v.player, *input);
        }
        let hbox = self.player.get_hbox();
        let center = hbox.center();
        assert(center == self.player.center());
        let start_mode = self.mode;
        let neighbors = match start_mode {
            WorldMode::Dark => self.dark_tilemap.get_neigbor_tile_hboxes(center),
            WorldMode::Light => self.light_tilemap.get_neigbor_tile_hboxes(center),
        };
        assert(neighbors@ == v.tick_neighbors(*input));
        self.resolve_motion(&neighbors);
        proof {
            lemma_gathered_bounds((v.tick_player(*input), v.mode), neighbors@);
        }
        self.player.post_update();
        let player_rect = self.player.get_hbox();
        if self.got_keys == self.keys_amount && player_rect.intersects(&self.end_rect) {
            self.win = true;
            return;
        }
        let ghost p = v.moved_player(*input);
        assert(self@.player == p);
        assert(self@.mode == v.tick_motion(*input).1);
        proof {
            let other_count = match v.mode {
                WorldMode::Dark => count_keys(v.light.tiles),
                WorldMode::Light => count_keys(v.dark.tiles),
            };
            let start = match v.mode {
                WorldMode::Dark => v.dark_start,
                WorldMode::Light => v.light_start,
            };
            lemma_collected(
                (v.active(), v.active_keys(), v.keys_collected),
                neighbors@,
                p.hbox(),
                start,
                v.keys_required - other_count,
            );
        }
        self.collect_keys(start_mode, &neighbors, &player_rect);
        if touches_any_spike(&neighbors, &player_rect) {
            self.reset();
            return;
        }
        self.apply_springs(&neighbors, &player_rect);
        let tilemap_rect = match start_mode {
            WorldMode::Dark => self.dark_tilemap.rect(),
            WorldMode::Light => self.light_tilemap.rect(),
        };
        if input.reset || !tilemap_rect.intersects(&player_rect) {
            self.reset();
        }
    }

    /// Centre of the player's hitbox.
    pub fn player_pos(&self) -> (r: Vec2)
        requires
            self.wf(),
        ensures
            r == self@.player.center(),
    {
        Vec2::new(
            self.player.position.x + PLAYER_SQUARE / 2,
            self.player.position.y + PLAYER_SQUARE / 2,
        )
    }

    /// The area of the dark tilemap.
    pub fn get_world_rect(&self) -> (r: Rect)
        requires
            self.wf(),
        ensures
            r == self@.dark.rect(),
    {
        self.dark_tilemap.rect()
    }

    pub fn win(&self) -> (r: bool)
        ensures
            r == self@.won,
    {
        self.win
    }

    pub fn mode(&self) -> (r: WorldMode)
        ensures
            r == self@.mode,
    {
        self.mode
    }

    pub fn player(&self) -> (r: Player)
        ensures
            r == self@.player,
    {
        self.player
    }

    pub fn dark_tilemap(&self) -> (r: &Tilemap)
        ensures
            r@ == self@.dark,
    {
        &self.dark_tilemap
    }

    pub fn light_tilemap(&self) -> (r: &Tilemap)
        ensures
            r@ == self@.light,
    {
        &self.light_tilemap
    }

    pub fn end_rect(&self) -> (r: Rect)
        ensures
            r == self@.end_rect,
    {
        self.end_rect
    }

    pub fn keys_collected(&self) -> (r: usize)
        ensures
            r == self@.keys_collected,
    {
        self.got_keys
    }

    pub fn keys_required(&self) -> (r: usize)
        ensures
            r == self@.keys_required,
    {
        self.keys_amount
    }

    /// Whether the end is open: every key of the level is held.
    pub fn door_open(&self) -> (r: bool)
        ensures
            r == (self@.keys_collected == self@.keys_required),
    {
        self.got_keys == self.keys_amount
    }
}

} // verus!