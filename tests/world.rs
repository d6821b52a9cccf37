use upfall::geometry::{Rect, Vec2};
use upfall::player::{Input, Player, FALL_DOWN, FALL_UP, PLAYER_SQUARE};
use upfall::tile::{Axis, Facing, Tile};
use upfall::tilemap::Tilemap;
use upfall::world::{Level, World, WorldMode};

const TILE: i64 = 1600;

fn idle() -> Input {
    Input { left: false, right: false, jump_pressed: false, jump_held: false, reset: false }
}

fn level(dark: Tilemap, light: Tilemap, spawn: Vec2, end: Vec2) -> Level {
    Level {
        name: String::from("test"),
        author: String::from("tests"),
        dark_tilemap: dark,
        light_tilemap: light,
        spawn_pos: spawn,
        end_pos: end,
    }
}

fn grid() -> Tilemap {
    Tilemap::new((3, 3), (TILE, TILE))
}

/// A 3x3 dark grid with a solid floor on the bottom row.
fn floored() -> Tilemap {
    let mut t = grid();
    for x in 0..3 {
        t.set_tile_usize((x, 2), Tile::Solid);
    }
    t
}

#[test]
fn player_comes_to_rest_on_a_solid_tile() {
    let mut dark = grid();
    dark.set_tile_usize((1, 2), Tile::Solid);
    // No key is needed, so the end sits where the player never reaches.
    let mut world = World::new(level(dark, grid(), Vec2::new(TILE, 0), Vec2::new(0, 0)));
    assert_eq!(world.end_rect(), Rect::new(0, 0, TILE, TILE));
    for _ in 0..60 {
        world.update(&idle());
    }
    let p = world.player();
    assert_eq!(p.position, Vec2::new(TILE, 2 * TILE - PLAYER_SQUARE));
    assert_eq!(p.position.y + PLAYER_SQUARE, 2 * TILE);
    assert_eq!(p.velocity.y, 0);
    assert!(p.can_jump);
    assert!(!world.win());
    assert_eq!(world.mode(), WorldMode::Dark);
}

#[test]
fn touching_the_end_with_no_keys_needed_wins() {
    let mut world = World::new(level(floored(), grid(), Vec2::new(TILE, TILE), Vec2::new(TILE, TILE)));
    assert_eq!(world.keys_required(), 0);
    world.update(&idle());
    assert!(world.win());
}

#[test]
fn falling_accelerates_by_gravity() {
    let mut world = World::new(level(grid(), grid(), Vec2::new(TILE, 0), Vec2::new(100 * TILE, 0)));
    world.update(&idle());
    assert_eq!(world.player().velocity.y, 30);
    assert_eq!(world.player().position.y, 30);
    world.update(&idle());
    assert_eq!(world.player().velocity.y, 60);
    assert_eq!(world.player().position.y, 90);
    assert_eq!(world.player_pos(), Vec2::new(TILE + 800, 90 + 800));
}

#[test]
fn win_needs_all_keys_before_the_tick() {
    let mut dark = floored();
    dark.set_tile_usize((1, 1), Tile::Key);
    let mut world = World::new(level(dark, grid(), Vec2::new(TILE, TILE), Vec2::new(TILE, TILE)));
    assert_eq!(world.keys_required(), 1);
    assert!(!world.door_open());
    world.update(&idle());
    // The key is taken in the same tick as the end is touched: no win yet.
    assert_eq!(world.keys_collected(), 1);
    assert_eq!(world.dark_tilemap().tile_at(1, 1), Some(Tile::Empty));
    assert!(world.door_open());
    assert!(!world.win());
    world.update(&idle());
    assert!(world.win());
    let frozen = world.player();
    world.update(&Input { right: true, ..idle() });
    assert_eq!(world.player(), frozen);
    assert!(world.win());
}

#[test]
fn reset_restores_collected_keys() {
    let mut dark = floored();
    dark.set_tile_usize((1, 1), Tile::Key);
    dark.set_tile_usize((2, 1), Tile::Key);
    let mut world =
        World::new(level(dark, grid(), Vec2::new(1600 + 800, TILE), Vec2::new(100 * TILE, 0)));
    assert_eq!(world.keys_required(), 2);
    world.update(&idle());
    assert_eq!(world.keys_collected(), 2);
    assert_eq!(world.dark_tilemap().keys_amount(), 0);
    world.reset();
    assert_eq!(world.keys_collected(), 0);
    assert_eq!(world.dark_tilemap().tile_at(1, 1), Some(Tile::Key));
    assert_eq!(world.dark_tilemap().tile_at(2, 1), Some(Tile::Key));
    assert_eq!(world.mode(), WorldMode::Dark);
    assert_eq!(world.player(), Player::new(Vec2::new(1600 + 800, TILE)));
}

#[test]
fn reset_key_restores_level() {
    let mut dark = floored();
    dark.set_tile_usize((1, 1), Tile::Key);
    let mut world = World::new(level(dark, grid(), Vec2::new(TILE, TILE), Vec2::new(100 * TILE, 0)));
    world.update(&idle());
    assert_eq!(world.keys_collected(), 1);
    world.update(&Input { reset: true, ..idle() });
    assert_eq!(world.keys_collected(), 0);
    assert_eq!(world.dark_tilemap().tile_at(1, 1), Some(Tile::Key));
}

#[test]
fn spike_kills_even_when_touching_a_spring() {
    let mut dark = floored();
    dark.set_tile_usize((0, 1), Tile::Spike(Facing::Up));
    dark.set_tile_usize((1, 1), Tile::Spring(Facing::Up));
    let spawn = Vec2::new(800, TILE);
    let mut world = World::new(level(dark, grid(), spawn, Vec2::new(100 * TILE, 0)));
    world.update(&Input { right: true, ..idle() });
    let p = world.player();
    assert_eq!(p, Player::new(spawn));
    assert!(!p.hit_spring);
    assert_eq!(p.velocity.y, 0);
}

#[test]
fn spring_throws_the_player_up() {
    let mut dark = floored();
    dark.set_tile_usize((1, 1), Tile::Spring(Facing::Up));
    let mut world = World::new(level(dark, grid(), Vec2::new(TILE, TILE), Vec2::new(100 * TILE, 0)));
    world.update(&idle());
    let p = world.player();
    assert!(p.hit_spring);
    assert!(p.can_jump);
    assert_eq!(p.velocity.y, -1000);
}

#[test]
fn two_portals_switch_the_world_once() {
    let mut dark = grid();
    dark.set_tile_usize((0, 1), Tile::Portal(Axis::Vertical));
    dark.set_tile_usize((1, 1), Tile::Portal(Axis::Vertical));
    let mut world =
        World::new(level(dark, grid(), Vec2::new(800, 1590), Vec2::new(100 * TILE, 0)));
    world.update(&idle());
    assert_eq!(world.mode(), WorldMode::Light);
    assert_eq!(world.player().fall_direction, FALL_UP);
    assert!(world.player().flip_vertical());
    assert!(world.player().portal_traversed);
}

#[test]
fn leaving_the_grid_resets() {
    let mut world = World::new(level(grid(), grid(), Vec2::new(TILE, 2 * TILE), Vec2::new(100 * TILE, 0)));
    let mut left_grid = false;
    for _ in 0..40 {
        world.update(&idle());
        if world.player().position == Vec2::new(TILE, 2 * TILE) && world.player().velocity.y == 0 {
            left_grid = true;
            break;
        }
    }
    assert!(left_grid);
    assert_eq!(world.get_world_rect(), Rect::new(0, 0, 3 * TILE, 3 * TILE));
}

#[test]
fn walking_accelerates_then_holds_speed() {
    let mut p = Player::new(Vec2::new(0, 0));
    let right = Input { right: true, ..idle() };
    p.update(&right);
    assert_eq!(p.velocity.x, 75);
    assert!(!p.flip_horizontal());
    for _ in 0..10 {
        p.update(&right);
    }
    assert_eq!(p.velocity.x, 400);
    let both = Input { left: true, right: true, ..idle() };
    p.update(&both);
    assert_eq!(p.velocity.x, 325);
    let left = Input { left: true, ..idle() };
    for _ in 0..20 {
        p.update(&left);
    }
    assert_eq!(p.velocity.x, -400);
    assert!(p.flip_horizontal());
}

#[test]
fn gravity_caps_at_max_fall_speed() {
    let mut p = Player::new(Vec2::new(0, 0));
    for _ in 0..40 {
        p.update(&idle());
    }
    assert_eq!(p.velocity.y, 650);
    p.on_world_change(WorldMode::Light);
    assert_eq!(p.fall_direction, FALL_UP);
    for _ in 0..100 {
        p.update(&idle());
    }
    assert_eq!(p.velocity.y, -650);
    p.on_world_change(WorldMode::Dark);
    assert_eq!(p.fall_direction, FALL_DOWN);
    assert!(!p.flip_vertical());
}

#[test]
fn jump_and_short_hop() {
    let mut p = Player::new(Vec2::new(0, 0));
    p.solve_collision_y(&Rect::new(0, 1600 + 20, 1600, 1600));
    p.update(&idle());
    p.solve_collision_y(&Rect::new(0, 1600, 1600, 1600));
    assert!(p.can_jump);
    // Pressed and held: full jump force against gravity.
    p.update(&Input { jump_pressed: true, jump_held: true, ..idle() });
    assert_eq!(p.velocity.y, -550);
    assert!(p.is_jumping);
    assert!(!p.can_jump);
    // Released early: the upward speed is cut to a third.
    p.update(&idle());
    assert_eq!(p.velocity.y, -(520 / 3));
    assert!(!p.is_jumping);
}

#[test]
fn spring_impulse_decays_under_gravity() {
    let mut p = Player::new(Vec2::new(0, 0));
    p.on_spring(Facing::Down);
    assert_eq!(p.velocity.y, 1000);
    assert!(p.hit_spring);
    p.on_spring(Facing::Up);
    assert_eq!(p.velocity.y, 1000);
    p.update(&idle());
    assert_eq!(p.velocity.y, 970);
    assert!(p.hit_spring);
    for _ in 0..11 {
        p.update(&idle());
    }
    assert_eq!(p.velocity.y, 640);
    assert!(!p.hit_spring);
    p.update(&idle());
    assert_eq!(p.velocity.y, 650);
    let mut q = Player::new(Vec2::new(0, 0));
    q.on_spring(Facing::Left);
    assert_eq!(q, Player::new(Vec2::new(0, 0)));
}

#[test]
fn collision_resolution_stops_penetration() {
    let rect = Rect::new(0, 1700, 1600, 1600);
    let mut p = Player::new(Vec2::new(0, 0));
    p.velocity = Vec2::new(0, 500);
    p.solve_collision_y(&rect);
    p.solve_collision_x(&rect);
    assert_eq!(p.position, Vec2::new(0, 100));
    assert_eq!(p.velocity.y, 0);
    assert!(p.can_jump);
    p.post_update();
    assert!(!p.get_hbox().intersects(&rect));

    let wall = Rect::new(1700, 0, 1600, 1600);
    let mut q = Player::new(Vec2::new(0, 0));
    q.velocity = Vec2::new(300, 0);
    q.solve_collision_y(&wall);
    q.solve_collision_x(&wall);
    assert_eq!(q.position, Vec2::new(100, 0));
    assert_eq!(q.velocity.x, 0);
    assert!(!q.can_jump);
    q.post_update();
    assert!(!q.get_hbox().intersects(&wall));
    let before = q;
    q.solve_collision_y(&wall);
    q.solve_collision_x(&wall);
    assert_eq!(q, before);
}

#[test]
fn portal_crossing_is_one_shot() {
    let portal = Rect::new(0, 1600, 1600, 1600);
    let mut p = Player::new(Vec2::new(0, 1590));
    p.velocity = Vec2::new(0, 30);
    assert!(p.can_traverse_portal(&portal, Axis::Vertical));
    assert!(p.portal_traversed);
    assert!(!p.can_traverse_portal(&portal, Axis::Vertical));
    let mut q = Player::new(Vec2::new(0, 1590));
    q.velocity = Vec2::new(0, 30);
    assert!(!q.can_traverse_portal(&portal, Axis::Horizontal));
    let mut far = Player::new(Vec2::new(0, 0));
    far.velocity = Vec2::new(0, 30);
    assert!(!far.can_traverse_portal(&portal, Axis::Vertical));
}

#[test]
fn world_modes() {
    assert_eq!(WorldMode::Dark.next(), WorldMode::Light);
    assert_eq!(WorldMode::Light.next(), WorldMode::Dark);
    let mut m = WorldMode::Dark;
    m.switch();
    assert_eq!(m, WorldMode::Light);
    assert_eq!(m.name(), "Light");
    assert_eq!(WorldMode::Dark.name(), "Dark");
}
