use upfall::geometry::{Rect, Vec2};
use upfall::tile::{Axis, Facing, Tile};
use upfall::tilemap::Tilemap;

fn make_vec_from_str(flat_tilemap: &str) -> Vec<Tile> {
    let mut vec = Vec::with_capacity(flat_tilemap.len());
    for c in flat_tilemap.chars() {
        match c {
            'O' => vec.push(Tile::Empty),
            'X' => vec.push(Tile::Solid),
            _ => panic!("Invalid character for test tilemap creation"),
        }
    }
    vec
}

fn distance_key(q: Vec2, r: Rect) -> i128 {
    let ex = 2 * q.x as i128 - (2 * r.x as i128 + r.w as i128);
    let ey = 2 * q.y as i128 - (2 * r.y as i128 + r.h as i128);
    ex * ex + ey * ey
}

#[test]
fn resize_tilemap() {
    let mut tilemap = Tilemap::new((3, 3), (1, 1));
    tilemap.set_tile_usize((1, 1), Tile::Solid);
    tilemap.set_tile_usize((2, 2), Tile::Solid);
    let expected_tiles = make_vec_from_str("OOOOXOOOX");
    assert_eq!(tilemap.tiles(), &expected_tiles[..]);

    tilemap.resize((2, 3));
    let expected_tiles = make_vec_from_str("OOOXOO");
    assert_eq!(tilemap.tiles(), &expected_tiles[..]);

    tilemap.resize((4, 4));
    let expected_tiles = make_vec_from_str("OOOOOXOOOOOOOOOO");
    assert_eq!(tilemap.tiles(), &expected_tiles[..]);
}

#[test]
fn resize_shrink_then_grow_keeps_only_shared_corner() {
    let mut tilemap = Tilemap::new((3, 3), (1600, 1600));
    for y in 0..3 {
        for x in 0..3 {
            tilemap.set_tile_usize((x, y), Tile::Key);
        }
    }
    tilemap.resize((1, 2));
    assert_eq!(tilemap.size(), (1, 2));
    tilemap.resize((3, 3));
    let expected = vec![
        Tile::Key,
        Tile::Empty,
        Tile::Empty,
        Tile::Key,
        Tile::Empty,
        Tile::Empty,
        Tile::Empty,
        Tile::Empty,
        Tile::Empty,
    ];
    assert_eq!(tilemap.tiles(), &expected[..]);
}

#[test]
fn resize_to_same_size_changes_nothing() {
    let mut tilemap = Tilemap::new((2, 2), (1600, 1600));
    tilemap.set_tile_usize((1, 0), Tile::Spike(Facing::Left));
    tilemap.resize((2, 2));
    assert_eq!(
        tilemap.tiles(),
        &[Tile::Empty, Tile::Spike(Facing::Left), Tile::Empty, Tile::Empty][..]
    );
}

#[test]
fn new_tilemap_is_empty() {
    let tilemap = Tilemap::new((4, 2), (1600, 800));
    assert_eq!(tilemap.tiles().len(), 8);
    assert!(tilemap.tiles().iter().all(|t| *t == Tile::Empty));
    assert_eq!(tilemap.size(), (4, 2));
    assert_eq!(tilemap.tile_width(), 1600);
    assert_eq!(tilemap.tile_height(), 800);
    assert_eq!(tilemap.tile_size(), Vec2::new(1600, 800));
    assert_eq!(tilemap.rect(), Rect::new(0, 0, 6400, 1600));
}

#[test]
fn tile_access_out_of_range() {
    let mut tilemap = Tilemap::new((2, 2), (1600, 1600));
    tilemap.set_tile_usize((2, 0), Tile::Solid);
    tilemap.set_tile_usize((0, 5), Tile::Solid);
    assert!(tilemap.tiles().iter().all(|t| *t == Tile::Empty));
    assert_eq!(tilemap.tile_at(2, 0), None);
    assert_eq!(tilemap.tile_at(0, 2), None);
    tilemap.set_tile_usize((1, 1), Tile::Key);
    assert_eq!(tilemap.tile_at(1, 1), Some(Tile::Key));
    assert_eq!(tilemap.tile_at(0, 1), Some(Tile::Empty));
}

#[test]
fn set_tile_by_position() {
    let mut tilemap = Tilemap::new((3, 2), (1600, 800));
    tilemap.set_tile_f32(Vec2::new(3300, 900), Tile::Solid);
    assert_eq!(tilemap.tile_at(2, 1), Some(Tile::Solid));
    tilemap.set_tile_f32(Vec2::new(-1, 100), Tile::Key);
    tilemap.set_tile_f32(Vec2::new(100, -1), Tile::Key);
    tilemap.set_tile_f32(Vec2::new(4800, 0), Tile::Key);
    assert_eq!(tilemap.keys_amount(), 0);
    tilemap.set_tile_f32(Vec2::new(0, 0), Tile::Key);
    assert_eq!(tilemap.tile_at(0, 0), Some(Tile::Key));
}

#[test]
fn snap_and_cell_conversion() {
    let tilemap = Tilemap::new((3, 3), (1600, 1600));
    assert_eq!(tilemap.snap(Vec2::new(1700, 3199)), Vec2::new(1600, 1600));
    assert_eq!(tilemap.snap(Vec2::new(0, 1600)), Vec2::new(0, 1600));
    assert_eq!(tilemap.world_to_cell(Vec2::new(1599, 4800)), (0, 3));
}

#[test]
fn keys_amount_counts_key_cells() {
    let mut tilemap = Tilemap::new((3, 3), (1600, 1600));
    tilemap.set_tile_usize((0, 0), Tile::Key);
    tilemap.set_tile_usize((2, 1), Tile::Key);
    tilemap.set_tile_usize((1, 1), Tile::Solid);
    assert_eq!(tilemap.keys_amount(), 2);
}

#[test]
fn neighbors_sorted_by_distance_from_query() {
    let mut tilemap = Tilemap::new((3, 3), (1600, 1600));
    tilemap.set_tile_usize((1, 1), Tile::Solid);
    tilemap.set_tile_usize((2, 1), Tile::Key);
    tilemap.set_tile_usize((0, 2), Tile::Spike(Facing::Up));
    let q = Vec2::new(2400, 2400);
    let ns = tilemap.get_neigbor_tile_hboxes(q);
    assert_eq!(ns.len(), 9);
    for w in ns.windows(2) {
        assert!(distance_key(q, w[0].hbox) <= distance_key(q, w[1].hbox));
    }
    assert_eq!(ns[0].tile, Tile::Solid);
    assert_eq!((ns[0].cell_x, ns[0].cell_y), (1, 1));
    assert_eq!(ns[0].hbox, Rect::new(1600, 1600, 1600, 1600));
    let key = ns.iter().find(|n| n.tile == Tile::Key).unwrap();
    assert_eq!(key.hbox, Rect::new(3600, 2000, 800, 800));
    let spike = ns.iter().find(|n| n.tile == Tile::Spike(Facing::Up)).unwrap();
    assert_eq!((spike.cell_x, spike.cell_y), (0, 2));
    assert_eq!(spike.hbox, Rect::new(100, 4100, 1400, 700));
}

#[test]
fn neighbors_clamp_at_the_edge() {
    let mut tilemap = Tilemap::new((2, 2), (1600, 1600));
    tilemap.set_tile_usize((0, 0), Tile::Solid);
    let q = Vec2::new(100, 100);
    let ns = tilemap.get_neigbor_tile_hboxes(q);
    assert_eq!(ns.len(), 9);
    for w in ns.windows(2) {
        assert!(distance_key(q, w[0].hbox) <= distance_key(q, w[1].hbox));
    }
    // The corner cell stands for the three blocks beyond it as well.
    let solids: Vec<_> = ns.iter().filter(|n| n.tile == Tile::Solid).collect();
    assert_eq!(solids.len(), 4);
    assert!(solids.iter().all(|n| (n.cell_x, n.cell_y) == (0, 0)));
    assert!(solids.iter().any(|n| n.hbox == Rect::new(-1600, -1600, 1600, 1600)));
    assert!(solids.iter().any(|n| n.hbox == Rect::new(0, 0, 1600, 1600)));
    assert!(ns.iter().all(|n| n.cell_x < 2 && n.cell_y < 2));
}

#[test]
fn neighbors_of_a_negative_position_use_cell_zero() {
    let mut tilemap = Tilemap::new((2, 2), (1600, 1600));
    tilemap.set_tile_usize((1, 1), Tile::Solid);
    let ns = tilemap.get_neigbor_tile_hboxes(Vec2::new(-500, -2000));
    assert_eq!(ns.len(), 9);
    assert!(ns.iter().any(|n| n.tile == Tile::Solid && n.hbox == Rect::new(1600, 1600, 1600, 1600)));
}

#[test]
fn neighbors_of_an_empty_grid() {
    let tilemap = Tilemap::new((0, 0), (1600, 1600));
    assert!(tilemap.get_neigbor_tile_hboxes(Vec2::new(0, 0)).is_empty());
}

#[test]
fn tile_hitboxes() {
    let pos = Vec2::new(1600, 3200);
    let size = Vec2::new(1600, 1600);
    assert_eq!(Tile::Empty.hbox(pos, size), Rect::new(0, 0, 0, 0));
    assert_eq!(Tile::Solid.hbox(pos, size), Rect::new(1600, 3200, 1600, 1600));
    assert_eq!(Tile::Portal(Axis::Vertical).hbox(pos, size), Rect::new(1600, 3200, 1600, 1600));
    assert_eq!(Tile::Key.hbox(pos, size), Rect::new(2000, 3600, 800, 800));
    assert_eq!(Tile::Spike(Facing::Up).hbox(pos, size), Rect::new(1700, 4100, 1400, 700));
    assert_eq!(Tile::Spike(Facing::Down).hbox(pos, size), Rect::new(1700, 3200, 1400, 700));
    assert_eq!(Tile::Spike(Facing::Left).hbox(pos, size), Rect::new(2500, 3300, 700, 1400));
    assert_eq!(Tile::Spike(Facing::Right).hbox(pos, size), Rect::new(1600, 3300, 700, 1400));
    assert_eq!(Tile::Spring(Facing::Up).hbox(pos, size), Rect::new(1700, 4100, 1400, 700));
}

#[test]
fn tile_names_and_orientation() {
    assert_eq!(Tile::Empty.type_str(), "None");
    assert_eq!(Tile::Solid.type_str(), "Solid");
    assert_eq!(Tile::Spike(Facing::Down).type_str(), "Spike");
    assert_eq!(Tile::Portal(Axis::Horizontal).type_str(), "Portal");
    assert_eq!(Tile::Key.type_str(), "Key");
    assert_eq!(Tile::Spring(Facing::Up).type_str(), "Spring");

    let mut t = Tile::Spike(Facing::Up);
    t.set_facing(Facing::Left);
    assert_eq!(t, Tile::Spike(Facing::Left));
    t.set_axis(Axis::Horizontal);
    assert_eq!(t, Tile::Spike(Facing::Left));

    let mut p = Tile::Portal(Axis::Vertical);
    p.set_axis(Axis::Horizontal);
    assert_eq!(p, Tile::Portal(Axis::Horizontal));
    p.set_facing(Facing::Down);
    assert_eq!(p, Tile::Portal(Axis::Horizontal));

    let mut s = Tile::Spring(Facing::Up);
    s.set_facing(Facing::Down);
    assert_eq!(s, Tile::Spring(Facing::Up));
}

#[test]
fn rect_geometry() {
    let a = Rect::new(0, 0, 1600, 1600);
    assert!(a.intersects(&Rect::new(1599, 1599, 10, 10)));
    assert!(!a.intersects(&Rect::new(1600, 0, 10, 10)));
    assert!(!a.intersects(&Rect::new(0, -10, 10, 10)));
    assert_eq!(a.center(), Vec2::new(800, 800));
    assert_eq!(Rect::new(-3, -3, 1, 1).center(), Vec2::new(-3, -3));
}
