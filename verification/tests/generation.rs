use bracket_noise::prelude::{FastNoise, FractalType, NoiseType};

use terra_incognita::actor::Position;
use terra_incognita::data_read::living_structs::RawSprite;
use terra_incognita::data_read::tile_structs::{Tile, TileData};
use terra_incognita::data_read::{named_tile, EntityDatabase};
use terra_incognita::map::{TileType, WorldMap, MAP_HEIGHT, MAP_WIDTH};
use terra_incognita::prefab::{prefab_from_glyphs, Prefab};
use terra_incognita::worldgen::{
    find_position_on_stairs, generate_map, move_to_new_floor, GenerationError, MIN_ROOM_SIZE,
};

fn raw_sprite(glyph: u16, fg: &str, bg: &str) -> RawSprite {
    RawSprite { glyph, fg: fg.to_string(), bg: bg.to_string() }
}

fn tile_record(
    name: &str,
    blocking: bool,
    transparent: bool,
    glyph: u16,
    bg: &str,
    tile_type: &str,
) -> Tile {
    Tile {
        name: name.to_string(),
        is_transparent: Some(transparent),
        is_blocking: Some(blocking),
        sprite: Some(raw_sprite(glyph, "#F5F5F5", bg)),
        destructible_info: None,
        tile_type: Some(tile_type.to_string()),
    }
}

fn catalog() -> EntityDatabase {
    let mut edb = EntityDatabase::empty();
    edb.tiles = TileData {
        all: vec![
            tile_record("Stone Wall", true, false, 35, "#8B2323", "wall"),
            tile_record("Stone Floor", false, true, 46, "#778899", "floor"),
            tile_record("Grass Floor", false, true, 46, "#228B22", "floor"),
            tile_record("Up Stairs", false, false, 60, "#000000", "upstairs"),
            tile_record("Down Stairs", false, false, 62, "#000000", "downstairs"),
            tile_record("Lush Brush", false, false, 171, "#006400", "special"),
            tile_record("Adamantite Wall", true, false, 35, "#912CEE", "wall"),
        ],
    };
    edb
}

fn entrance_prefab(edb: &EntityDatabase) -> Prefab {
    let rows = [
        "######P#####",
        "#..........#",
        "#..........#",
        "#..........#",
        "#..........#",
        "#####..#####",
    ];
    let width = rows[0].len();
    let height = rows.len();
    let mut glyphs: Vec<u16> = Vec::new();
    for row in rows.iter() {
        for ch in row.chars() {
            glyphs.push(ch as u16);
        }
    }
    prefab_from_glyphs(edb, width, height, &glyphs)
}

fn cave_perlin(seed: u64) -> FastNoise {
    let mut noise = FastNoise::seeded(seed);
    noise.set_noise_type(NoiseType::SimplexFractal);
    noise.set_fractal_type(FractalType::FBM);
    noise.set_fractal_octaves(2);
    noise.set_fractal_gain(0.02);
    noise.set_fractal_lacunarity(0.5);
    noise.set_frequency(2.5);
    noise
}

/// The per-cell cavern-band decisions for one level, sampled exactly as the
/// generator's noise field prescribes: normalized fractal noise inside the
/// (0.6, 0.9) band carves floor.
fn cave_mask(seed: u64, depth: usize) -> Vec<bool> {
    let level_seed = seed.wrapping_add(depth as u64);
    let noise = cave_perlin(level_seed);
    let mut mask = vec![false; MAP_WIDTH * MAP_HEIGHT];
    for x in 0..MAP_WIDTH {
        for y in 0..MAP_HEIGHT {
            let mut value = noise.get_noise(x as f32 / 64., y as f32 / 64.);
            value = (value + 1.0) * 0.5;
            if value > 0.6 && value < 0.9 {
                mask[x + y * MAP_WIDTH] = true;
            }
        }
    }
    mask
}

fn generate(seed: u64, depth: usize) -> (WorldMap, Position) {
    let edb = catalog();
    let prefab = entrance_prefab(&edb);
    let mask = cave_mask(seed, depth);
    generate_map(&edb, &prefab, &mask, seed, depth).expect("generation should succeed")
}

fn idx_of(p: &Position) -> usize {
    p.x + p.y * MAP_WIDTH
}

fn room_containing(map: &WorldMap, p: &Position) -> Option<usize> {
    for (r, room) in map.rooms.iter().enumerate() {
        if room.tiles.iter().any(|q| q == p) {
            return Some(r);
        }
    }
    None
}

#[test]
fn spawn_tile_is_floor_at_surface() {
    let (map, spawn) = generate(1, 0);
    assert!(spawn != Position::new(0, 0));
    assert_eq!(map.tiles[idx_of(&spawn)].tile_type, TileType::Floor);
}

#[test]
fn same_seed_generates_identical_maps() {
    let (map_a, spawn_a) = generate(1, 0);
    let (map_b, spawn_b) = generate(1, 0);
    assert_eq!(spawn_a, spawn_b);
    assert!(map_a.tiles == map_b.tiles);
}

#[test]
fn no_tiny_rooms_survive_culling() {
    let (map, _) = generate(1, 0);
    assert!(map.rooms.len() > 0);
    for room in map.rooms.iter() {
        assert!(room.tiles.len() >= MIN_ROOM_SIZE);
    }
}

#[test]
fn down_stairs_lands_in_a_surviving_room() {
    let (map, _) = generate(1, 0);
    let down = map
        .tiles
        .iter()
        .position(|t| t.tile_type == TileType::DownStairs)
        .expect("a down staircase must be placed");
    let pos = Position::new(down % MAP_WIDTH, down / MAP_WIDTH);
    assert!(room_containing(&map, &pos).is_some());
}

#[test]
fn deeper_levels_spawn_on_a_room_stair() {
    let (map, spawn) = generate(1, 1);
    assert!(room_containing(&map, &spawn).is_some());
    let t = map.tiles[idx_of(&spawn)].tile_type;
    assert!(t == TileType::UpStairs || t == TileType::DownStairs);
}

#[test]
fn index_mapping_covers_the_corners() {
    let (map, _) = generate(1, 0);
    assert_eq!(map.width, 100);
    assert_eq!(map.height, 70);
    assert_eq!(map.idx_to_pos(0), Position::new(0, 0));
    assert_eq!(map.idx_to_pos(6999), Position::new(99, 69));
}

#[test]
fn an_uncarvable_level_reports_no_viable_rooms() {
    let edb = catalog();
    let prefab = entrance_prefab(&edb);
    let mask = vec![false; MAP_WIDTH * MAP_HEIGHT];
    let r = generate_map(&edb, &prefab, &mask, 1, 0);
    assert!(matches!(r, Err(GenerationError::NoViableRooms)));
}

#[test]
fn an_oversized_prefab_reports_a_missing_resource() {
    let edb = catalog();
    let glyphs = vec![35u16; 95 * 2];
    let prefab = prefab_from_glyphs(&edb, 95, 2, &glyphs);
    let mask = cave_mask(1, 0);
    let r = generate_map(&edb, &prefab, &mask, 1, 0);
    assert!(matches!(r, Err(GenerationError::MissingResource)));
}

#[test]
fn revisiting_a_floor_reenters_on_the_matching_stair() {
    let edb = catalog();
    let prefab = entrance_prefab(&edb);
    let (surface, _) = generate(1, 0);
    let mut cache: Vec<WorldMap> = Vec::new();

    // descend: depth 1 is generated fresh and cached on the next move
    let mask_down = cave_mask(1, 1);
    let (level_one, _) =
        move_to_new_floor(&edb, &prefab, &mask_down, &mut cache, surface, 1, 1).unwrap();
    assert_eq!(level_one.depth, 1);
    assert_eq!(cache.len(), 1);
    assert_eq!(cache[0].depth, 0);

    // ascend back: the surface comes out of the cache, entered on its
    // down staircase
    let mask_up = cave_mask(1, 0);
    let (back, reentry) =
        move_to_new_floor(&edb, &prefab, &mask_up, &mut cache, level_one, 1, 0).unwrap();
    assert_eq!(back.depth, 0);
    assert_eq!(back.tiles[idx_of(&reentry)].tile_type, TileType::DownStairs);
    assert_eq!(cache.len(), 1);
    assert_eq!(cache[0].depth, 1);
}

#[test]
fn a_cached_floor_without_stairs_is_reported() {
    let edb = catalog();
    let prefab = entrance_prefab(&edb);
    let (surface, _) = generate(1, 0);
    let mut stairless = generate(1, 2).0;
    let floor = named_tile(&edb, "Stone Floor");
    for t in stairless.tiles.iter_mut() {
        if t.tile_type == TileType::UpStairs || t.tile_type == TileType::DownStairs {
            *t = floor;
        }
    }
    let mut cache = vec![stairless];
    let mask = cave_mask(1, 2);
    let r = move_to_new_floor(&edb, &prefab, &mask, &mut cache, surface, 1, 2);
    assert!(matches!(r, Err(GenerationError::NoStairs)));
}

#[test]
fn stairs_found_by_direction_of_travel() {
    let (map, _) = generate(1, 1);
    let up = find_position_on_stairs(0, 1, &map).expect("deeper level has an up staircase");
    assert_eq!(map.tiles[idx_of(&up)].tile_type, TileType::UpStairs);
    let down = find_position_on_stairs(1, 0, &map).expect("level has a down staircase");
    assert_eq!(map.tiles[idx_of(&down)].tile_type, TileType::DownStairs);
}

#[test]
fn a_markerless_prefab_reports_a_missing_resource() {
    let edb = catalog();
    // a fitting drawing, but without any spawn marker
    let glyphs = vec![35u16; 12 * 6];
    let prefab = prefab_from_glyphs(&edb, 12, 6, &glyphs);
    let mask = cave_mask(1, 0);
    let r = generate_map(&edb, &prefab, &mask, 1, 0);
    assert!(matches!(r, Err(GenerationError::MissingResource)));
}
