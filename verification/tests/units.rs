use terra_incognita::actor::{CharSprite, Color, MoveError, MoveResult, Position};
use terra_incognita::combat::{attack, CombatStats};
use terra_incognita::data_read::EntityDatabase;
use terra_incognita::fov::ViewShed;
use terra_incognita::map::{TileType, WorldMap, WorldTile};
use terra_incognita::messagelog::Message;
use terra_incognita::monster::{BeingAI, Breed};
use terra_incognita::prefab::{prefab_from_glyphs, xy_to_idx};
use terra_incognita::tiles::{down_stairs, floor_grass, floor_stone, up_stairs, wall_stone};
use terra_incognita::worldgen::{
    cull_rooms, flood_fill, get_neighbors, get_priority, remove_small_rooms, stamp_prefab,
    WorldRoom,
};

fn grid_map(width: usize, height: usize, fill: WorldTile) -> WorldMap {
    WorldMap {
        tiles: vec![fill; width * height],
        rooms: Vec::new(),
        visible: vec![false; width * height],
        discovered: vec![false; width * height],
        beings: vec![None; width * height],
        width,
        height,
        depth: 0,
    }
}

fn carve(map: &mut WorldMap, cells: &[(usize, usize)], tile: WorldTile) {
    for (x, y) in cells.iter() {
        let idx = x + y * map.width;
        map.tiles[idx] = tile;
    }
}

#[test]
fn test_neighbor() {
    let neighbors = vec![
        Position::new(0, 0),
        Position::new(0, 1),
        Position::new(0, 2),
        Position::new(1, 0),
        Position::new(1, 2),
        Position::new(2, 0),
        Position::new(2, 1),
        Position::new(2, 2),
    ];
    assert_eq!(get_neighbors(Position::new(1, 1)), neighbors);
}

#[test]
fn corner_points_have_three_neighbors() {
    let neighbors = get_neighbors(Position::new(0, 0));
    assert_eq!(
        neighbors,
        vec![Position::new(0, 1), Position::new(1, 0), Position::new(1, 1)]
    );
}

#[test]
fn oldest_generation_is_processed_first() {
    let mut queue: Vec<(Position, i32)> = vec![
        (Position::new(1, 1), 2),
        (Position::new(2, 2), 0),
        (Position::new(3, 3), 1),
        (Position::new(4, 4), 0),
    ];
    let first = get_priority(&mut queue).unwrap();
    assert_eq!(first, (Position::new(2, 2), 0));
    let second = get_priority(&mut queue).unwrap();
    assert_eq!(second, (Position::new(4, 4), 0));
    let third = get_priority(&mut queue).unwrap();
    assert_eq!(third, (Position::new(3, 3), 1));
    assert_eq!(get_priority(&mut queue), Some((Position::new(1, 1), 2)));
    assert_eq!(get_priority(&mut queue), None);
}

#[test]
fn flood_fill_collects_exactly_the_connected_body() {
    let wall = wall_stone();
    let floor = floor_stone();
    let mut map = grid_map(100, 70, wall);
    // an L-shaped body plus one diagonal outlier that must not be joined
    let body = [(2, 2), (3, 2), (4, 2), (4, 3), (4, 4)];
    carve(&mut map, &body, floor);
    carve(&mut map, &[(5, 5)], floor);
    let mut visited = vec![false; 100 * 70];
    let room = flood_fill(Position::new(2, 2), &map, &floor, &mut visited);
    assert_eq!(room.tiles.len(), body.len());
    for (x, y) in body.iter() {
        assert!(room.tiles.contains(&Position::new(*x, *y)));
    }
    assert!(!room.tiles.contains(&Position::new(5, 5)));
}

#[test]
fn cull_rooms_partitions_the_floor() {
    let wall = wall_stone();
    let floor = floor_stone();
    let mut map = grid_map(100, 70, wall);
    carve(&mut map, &[(2, 2), (3, 2)], floor);
    carve(&mut map, &[(10, 10), (10, 11), (11, 10)], floor);
    cull_rooms(&mut map, &floor);
    assert_eq!(map.rooms.len(), 2);
    let sizes: Vec<usize> = map.rooms.iter().map(|r| r.tiles.len()).collect();
    assert!(sizes.contains(&2));
    assert!(sizes.contains(&3));
}

#[test]
fn small_rooms_are_walled_back_up() {
    let wall = wall_stone();
    let floor = floor_stone();
    let mut map = grid_map(100, 70, wall);
    let big: Vec<(usize, usize)> = (0..12).map(|k| (20 + k, 20)).collect();
    carve(&mut map, &big, floor);
    carve(&mut map, &[(2, 2), (3, 2)], floor);
    cull_rooms(&mut map, &floor);
    assert_eq!(map.rooms.len(), 2);
    remove_small_rooms(&mut map, 10, wall);
    assert_eq!(map.rooms.len(), 1);
    assert_eq!(map.rooms[0].tiles.len(), 12);
    // the small body is stone wall again, the big one is untouched
    assert_eq!(map.tiles[2 + 2 * 100], wall);
    assert_eq!(map.tiles[3 + 2 * 100], wall);
    assert_eq!(map.tiles[20 + 20 * 100], floor);
}

#[test]
fn stamping_leaves_the_rest_of_the_map_alone() {
    let edb = EntityDatabase::empty();
    let wall = wall_stone();
    let floor = floor_stone();
    let grass = floor_grass();
    let mut map = grid_map(100, 70, wall);
    carve(&mut map, &[(31, 11)], floor);
    let before = map.tiles.clone();
    // 3 x 2 drawing: wall, grass, spawn marker over one more grass row
    let glyphs: Vec<u16> = vec![35, 46, 80, 46, 46, 46];
    let prefab = prefab_from_glyphs(&edb, 3, 2, &glyphs);
    let (ox, oy, w, h) = (30usize, 10usize, 3usize, 2usize);
    let spawn = stamp_prefab(&mut map, &prefab, ox, oy, &floor, &grass);
    for y in 0..70 {
        for x in 0..100 {
            let inside = x >= ox && x < ox + w && y >= oy && y < oy + h;
            if !inside {
                assert_eq!(map.tiles[x + y * 100], before[x + y * 100]);
            }
        }
    }
    // the marked cell became grass and is reported as the spawn
    assert_eq!(spawn, Some(Position::new(32, 10)));
    assert_eq!(map.tiles[32 + 10 * 100], grass);
    // the already carved floor cell was skipped
    assert_eq!(map.tiles[31 + 11 * 100], floor);
}

#[test]
fn moving_into_walls_beings_and_void() {
    let wall = wall_stone();
    let floor = floor_stone();
    let mut map = grid_map(100, 70, floor);
    carve(&mut map, &[(6, 5)], wall);
    map.beings[5 + 5 * 100] = Some(7);
    map.beings[5 + 6 * 100] = Some(9);
    let mut pos = Position::new(5, 5);
    let mut view = ViewShed::new(8);
    view.dirty = false;

    let blocked = try_move_at(&mut map, Position::new(6, 5), &mut pos, &mut view, 7);
    assert_eq!(blocked, MoveResult::InvalidMove(MoveError::Blocked));
    assert_eq!(pos, Position::new(5, 5));
    assert!(view.dirty);

    let attack_move = try_move_at(&mut map, Position::new(5, 6), &mut pos, &mut view, 7);
    assert_eq!(attack_move, MoveResult::Attack(9));

    let acted = try_move_at(&mut map, Position::new(4, 5), &mut pos, &mut view, 7);
    assert_eq!(acted, MoveResult::Acted);
    assert_eq!(pos, Position::new(4, 5));
    assert_eq!(map.beings[5 + 5 * 100], None);
    assert_eq!(map.beings[4 + 5 * 100], Some(7));
}

fn try_move_at(
    map: &mut WorldMap,
    dest: Position,
    pos: &mut Position,
    view: &mut ViewShed,
    who: u64,
) -> MoveResult {
    terra_incognita::actor::try_move(map, &dest, pos, view, who)
}

#[test]
fn stairs_underfoot_gate_level_changes() {
    let floor = floor_stone();
    let mut map = grid_map(100, 70, floor);
    carve(&mut map, &[(5, 5)], down_stairs());
    carve(&mut map, &[(6, 5)], up_stairs());
    assert!(terra_incognita::actor::try_descend(&map, &Position::new(5, 5)));
    assert!(!terra_incognita::actor::try_descend(&map, &Position::new(6, 5)));
    assert!(terra_incognita::actor::try_ascend(&map, &Position::new(6, 5), 3, 1));
    assert!(!terra_incognita::actor::try_ascend(&map, &Position::new(6, 5), 0, 1));
    assert!(!terra_incognita::actor::try_ascend(&map, &Position::new(5, 5), 3, 1));
}

#[test]
fn attack_deals_the_stat_difference() {
    let mut defender = CombatStats::new(20, 3, 4);
    let attacker = CombatStats::new(10, 9, 0);
    let damage = attack(&mut defender, &attacker);
    assert_eq!(damage, 5);
    assert_eq!(defender.health, 15);
    // damage saturates at zero health
    let mut frail = CombatStats::new(3, 0, 0);
    let brute = CombatStats::new(10, 50, 0);
    assert_eq!(attack(&mut frail, &brute), 50);
    assert_eq!(frail.health, 0);
    // a guard stronger than the blow still takes the absolute difference
    let mut tank = CombatStats::new(30, 0, 12);
    assert_eq!(attack(&mut tank, &CombatStats::new(1, 2, 0)), 10);
    assert_eq!(tank.health, 20);
}

#[test]
fn small_records_hold_their_fields() {
    let m = Message::new("Welcome to Terra Incognita".to_string(), 3);
    assert_eq!(m.contents, "Welcome to Terra Incognita");
    assert_eq!(m.turn_sent, 3);

    let b = Breed::from("Centipede", "bug", "basic");
    assert_eq!(b.name, "Centipede");
    assert_eq!(b.species, "bug");
    assert_eq!(b.ai, BeingAI::BasicPoke);

    let v = ViewShed::new(12);
    assert_eq!(v.range, 12);
    assert!(v.dirty);
    assert!(v.visible_tiles.is_empty());

    let p = Position::new(4, 9);
    assert_eq!((p.x(), p.y()), (4, 9));

    assert_eq!(xy_to_idx(3, 2, 100), 203);

    let s = CharSprite::with_color(35, Color { r: 1, g: 2, b: 3 }, None);
    assert_eq!(s.bg, Color { r: 0, g: 0, b: 0 });
    assert!(s.eq(CharSprite::new(35, Color { r: 1, g: 2, b: 3 }, Color { r: 0, g: 0, b: 0 })));
}

#[test]
fn world_tile_placeholder_is_visibly_odd() {
    let t = WorldTile::empty();
    assert_eq!(t.tile_type, TileType::Unknown);
    assert_eq!(t.sprite.glyph, 63);
    assert!(!t.is_blocking);
}

#[test]
fn map_exits_skip_blocking_tiles() {
    let wall = wall_stone();
    let floor = floor_stone();
    let mut map = grid_map(100, 70, floor);
    carve(&mut map, &[(5, 4), (4, 5)], wall);
    let idx = 5 + 5 * 100;
    let exits = map.get_available_exits(idx);
    assert_eq!(exits, vec![6 + 5 * 100, 5 + 6 * 100]);
    assert!(map.within_bounds(Position::new(99, 69)));
    assert!(!map.within_bounds(Position::new(100, 69)));
}

#[test]
fn rooms_hand_out_their_own_points() {
    let mut rng = bracket_random::prelude::RandomNumberGenerator::seeded(5);
    let room = WorldRoom {
        tiles: vec![Position::new(1, 1), Position::new(2, 1), Position::new(3, 1)],
    };
    for _ in 0..20 {
        let p = room.get_random_point(&mut rng);
        assert!(room.tiles.contains(&p));
    }
}

#[test]
fn pretty_walls_redraws_only_wall_glyphs() {
    let wall = wall_stone();
    let floor = floor_stone();
    let mut map = grid_map(100, 70, floor);
    // one isolated pillar and one vertical run of walls
    carve(&mut map, &[(5, 5)], wall);
    carve(&mut map, &[(10, 10), (10, 11), (10, 12)], wall);
    let mut rng = bracket_random::prelude::RandomNumberGenerator::seeded(3);
    terra_incognita::map_scanning::pretty_walls(&mut map, &mut rng);
    // floors are untouched
    assert_eq!(map.tiles[6 + 5 * 100], floor);
    // a wall with no wall neighbors becomes a pillar
    assert_eq!(map.tiles[5 + 5 * 100].sprite.glyph, 9);
    // the middle of a vertical run is drawn as a vertical wall
    assert_eq!(map.tiles[10 + 11 * 100].sprite.glyph, 186);
    // nothing but the glyph changes on walls
    assert_eq!(map.tiles[5 + 5 * 100].tile_type, TileType::Wall);
    assert!(map.tiles[5 + 5 * 100].is_blocking);
}

#[test]
fn first_matching_tile_is_found_in_scan_order() {
    let floor = floor_stone();
    let mut map = grid_map(100, 70, floor);
    carve(&mut map, &[(7, 3), (2, 9)], down_stairs());
    let p = terra_incognita::map_scanning::find_tile_from_type(&map, 0, &TileType::DownStairs);
    assert_eq!(p, Some(Position::new(7, 3)));
    let none = terra_incognita::map_scanning::find_tile_from_type(&map, 0, &TileType::Water);
    assert_eq!(none, None);
    // stone floor is transparent, stone wall is not
    assert!(!map.is_opaque(0));
    assert!(map.is_opaque(7 + 3 * 100));
}

#[test]
fn moving_off_the_map_is_rejected_silently() {
    let floor = floor_stone();
    let mut map = grid_map(100, 70, floor);
    let mut pos = Position::new(0, 0);
    let mut view = ViewShed::new(8);
    view.dirty = false;
    let r = try_move_at(&mut map, Position::new(0, 70), &mut pos, &mut view, 1);
    assert_eq!(r, MoveResult::InvalidMove(MoveError::OutOfBounds));
    assert_eq!(pos, Position::new(0, 0));
    // an out-of-bounds bump does not even dirty the vision
    assert!(!view.dirty);
}

#[test]
fn carving_is_driven_by_the_band_decisions() {
    let wall = wall_stone();
    let floor = floor_stone();
    let mut map = grid_map(100, 70, wall);
    let mut mask = vec![false; 100 * 70];
    mask[5 + 5 * 100] = true;
    mask[0] = true;  // on the outermost ring: must stay wall
    terra_incognita::worldgen::create_caverns(&mut map, &mask, floor);
    assert_eq!(map.tiles[5 + 5 * 100], floor);
    assert_eq!(map.tiles[0], wall);
    assert_eq!(map.tiles[6 + 5 * 100], wall);
}

#[test]
fn culling_never_touches_tiles_outside_small_rooms() {
    let wall = wall_stone();
    let floor = floor_stone();
    let water = terra_incognita::tiles::deep_water();
    let mut map = grid_map(100, 70, wall);
    let big: Vec<(usize, usize)> = (0..12).map(|k| (20 + k, 20)).collect();
    carve(&mut map, &big, floor);
    carve(&mut map, &[(2, 2), (3, 2)], floor);
    cull_rooms(&mut map, &floor);
    // terrain that belongs to no room at all must survive the culling
    carve(&mut map, &[(50, 50)], water);
    remove_small_rooms(&mut map, 10, wall);
    assert_eq!(map.tiles[50 + 50 * 100], water);
    assert_eq!(map.tiles[0], wall);
    assert_eq!(map.tiles[20 + 20 * 100], floor);
    assert_eq!(map.tiles[2 + 2 * 100], wall);
}
