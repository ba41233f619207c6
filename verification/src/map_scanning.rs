//! Linear scans over a finished map: locating a tile of a wanted kind,
//! such as the stair matching the direction of travel.
use vstd::prelude::*;

use bracket_random::prelude::RandomNumberGenerator;

use crate::actor::Position;
use crate::map::{lemma_pos_idx_in_range, TileType, WorldMap};
use crate::rng::rng_range;

verus! {

/// Finds the position of the first tile of the wanted kind in row-major
/// order; None when the map has no such tile, instead of a silent
/// sentinel position.
pub fn find_tile_from_type(map: &WorldMap, _connecting_depth: usize, tile_type: &TileType) -> (r:
    Option<Position>)
    requires
        map.wf(),
    ensures
        match r {
            Some(p) => {
                &&& map.in_bounds(p)
                &&& map.tiles@[map.pos_idx(p)].tile_type == *tile_type
                &&& forall|j: int|
                    0 <= j < map.pos_idx(p) ==> (#[trigger] map.tiles@[j]).tile_type != *tile_type
            },
            None => forall|j: int|
                0 <= j < map.tiles.len() ==> (#[trigger] map.tiles@[j]).tile_type != *tile_type,
        },
{
    let mut i: usize = 0;
    while i < map.tiles.len()
        invariant
            map.wf(),
            i <= map.tiles.len(),
            forall|j: int| 0 <= j < i ==> (#[trigger] map.tiles@[j]).tile_type != *tile_type,
        decreases map.tiles.len() - i,
    {
        if map.tiles[i].tile_type == *tile_type {
            proof {
                crate::map::lemma_idx_in_bounds(*map, i as int);
            }
            let p = map.idx_to_pos(i);
            return Some(p);
        }
        i = i + 1;
    }
    None
}

/// The cell at the coordinate pair is a wall.
pub open spec fn spec_is_wall(m: WorldMap, x: int, y: int) -> bool {
    m.tiles@[m.spec_idx(x, y)].tile_type == TileType::Wall
}

/// Which of a wall's four orthogonal neighbors are walls too, packed into
/// the four low bits: north, south, west, east.
pub open spec fn spec_wall_mask(m: WorldMap, x: int, y: int) -> int {
    (if y != 0 && spec_is_wall(m, x, y - 1) {
        1int
    } else {
        0int
    }) + (if y < m.height - 1 && spec_is_wall(m, x, y + 1) {
        2int
    } else {
        0int
    }) + (if x != 0 && spec_is_wall(m, x - 1, y) {
        4int
    } else {
        0int
    }) + (if x < m.width - 1 && spec_is_wall(m, x + 1, y) {
        8int
    } else {
        0int
    })
}

/// The box-drawing glyph for a wall with the given neighbor mask; the
/// all-sides mask is drawn with a randomized variety glyph instead.
pub open spec fn spec_wall_glyph(mask: int) -> u16 {
    if mask == 0 {
        9u16  // pillar: no neighboring walls
    } else if mask == 1 || mask == 2 || mask == 3 {
        186u16  // vertical run
    } else if mask == 4 || mask == 8 || mask == 12 {
        205u16  // horizontal run
    } else if mask == 5 {
        188u16
    } else if mask == 6 {
        187u16
    } else if mask == 7 {
        185u16
    } else if mask == 9 {
        200u16
    } else if mask == 10 {
        201u16
    } else if mask == 11 {
        204u16
    } else if mask == 13 {
        202u16
    } else {
        203u16  // mask 14
    }
}

/// The randomized glyphs drawn for a wall enclosed on all four sides.
pub open spec fn is_variety_glyph(g: u16) -> bool {
    g == 96 || g == 32 || g == 35 || g == 39
}

/// The glyph a wall at the given coordinates may carry after the pretty
/// pass: the mask's box-drawing glyph, or a variety glyph when enclosed.
pub open spec fn wall_glyph_matches(m: WorldMap, x: int, y: int, g: u16) -> bool {
    &&& (spec_wall_mask(m, x, y) < 15 ==> g == spec_wall_glyph(spec_wall_mask(m, x, y)))
    &&& (spec_wall_mask(m, x, y) == 15 ==> is_variety_glyph(g))
}

fn is_revealed_and_wall(map: &WorldMap, x: usize, y: usize) -> (r: bool)
    requires
        map.wf(),
        x < map.width,
        y < map.height,
    ensures
        r == spec_is_wall(*map, x as int, y as int),
{
    proof {
        lemma_pos_idx_in_range(*map, Position { x, y });
    }
    let idx = map.xy_to_idx(x, y);
    map.tiles[idx].tile_type == TileType::Wall
}

fn wall_glyph(map: &WorldMap, x: usize, y: usize, rng: &mut RandomNumberGenerator) -> (g: u16)
    requires
        map.wf(),
        x < map.width,
        y < map.height,
    ensures
        spec_wall_mask(*map, x as int, y as int) < 15 ==> g == spec_wall_glyph(
            spec_wall_mask(*map, x as int, y as int),
        ),
        spec_wall_mask(*map, x as int, y as int) == 15 ==> is_variety_glyph(g),
{
    let mut mask: u8 = 0;
    if y != 0 && is_revealed_and_wall(map, x, y - 1) {
        mask = mask + 1;
    }
    if y < map.height - 1 && is_revealed_and_wall(map, x, y + 1) {
        mask = mask + 2;
    }
    if x != 0 && is_revealed_and_wall(map, x - 1, y) {
        mask = mask + 4;
    }
    if x < map.width - 1 && is_revealed_and_wall(map, x + 1, y) {
        mask = mask + 8;
    }
    match mask {
        0 => 9,  // pillar because we can't see neighbors
        1 => 186,  // wall only to the north
        2 => 186,  // wall only to the south
        3 => 186,  // wall to the north and south
        4 => 205,  // wall only to the west
        5 => 188,  // wall to the north and west
        6 => 187,  // wall to the south and west
        7 => 185,  // wall to the north, south and west
        8 => 205,  // wall only to the east
        9 => 200,  // wall to the north and east
        10 => 201,  // wall to the south and east
        11 => 204,  // wall to the north, south and east
        12 => 205,  // wall to the east and west
        13 => 202,  // wall to the east, west and south
        14 => 203,  // wall to the east, west and north
        _ => {
            // wall on all sides: pick one of the variety glyphs
            match rng_range(rng, 0, 4) {
                0 => 96,
                1 => 32,
                2 => 35,
                _ => 39,
            }
        },
    }
}

/// Turns wall sprites into a connected pattern: each wall's glyph is
/// redrawn from the walls around it; nothing else about any tile changes.
pub fn pretty_walls(map: &mut WorldMap, rng: &mut RandomNumberGenerator)
    requires
        old(map).wf(),
    ensures
        final (map).wf(),
        final (map).rooms == old(map).rooms,
        final (map).visible == old(map).visible,
        final (map).discovered == old(map).discovered,
        final (map).beings == old(map).beings,
        final (map).width == old(map).width,
        final (map).height == old(map).height,
        final (map).depth == old(map).depth,
        final (map).tiles.len() == old(map).tiles.len(),
        forall|i: int|
            #![trigger final (map).tiles@[i]]
            0 <= i < final (map).tiles.len() ==> {
                let t0 = old(map).tiles@[i];
                let t1 = final (map).tiles@[i];
                &&& (t0.tile_type != TileType::Wall ==> t1 == t0)
                &&& t1.tile_type == t0.tile_type
                &&& t1.is_blocking == t0.is_blocking
                &&& t1.is_transparent == t0.is_transparent
                &&& t1.sprite.fg == t0.sprite.fg
                &&& t1.sprite.bg == t0.sprite.bg
                &&& (t0.tile_type == TileType::Wall ==> wall_glyph_matches(
                    *old(map),
                    i % (old(map).width as int),
                    i / (old(map).width as int),
                    t1.sprite.glyph,
                ))
            },
{
    let ghost m0 = *old(map);
    let ghost w = m0.width as int;
    let mut idx: usize = 0;
    while idx < map.tiles.len()
        invariant
            map.wf(),
            m0.wf(),
            w == m0.width,
            map.rooms == m0.rooms,
            map.visible == m0.visible,
            map.discovered == m0.discovered,
            map.beings == m0.beings,
            map.width == m0.width,
            map.height == m0.height,
            map.depth == m0.depth,
            map.tiles.len() == m0.tiles.len(),
            idx <= map.tiles.len(),
            forall|i: int|
                #![trigger map.tiles@[i]]
                0 <= i < map.tiles.len() ==> (#[trigger] map.tiles@[i]).tile_type
                    == m0.tiles@[i].tile_type && map.tiles@[i].is_blocking
                    == m0.tiles@[i].is_blocking && map.tiles@[i].is_transparent
                    == m0.tiles@[i].is_transparent && map.tiles@[i].sprite.fg
                    == m0.tiles@[i].sprite.fg && map.tiles@[i].sprite.bg == m0.tiles@[i].sprite.bg,
            forall|i: int| idx <= i < map.tiles.len() ==> map.tiles@[i] == m0.tiles@[i],
            forall|i: int|
                #![trigger map.tiles@[i]]
                0 <= i < idx ==> {
                    let t0 = m0.tiles@[i];
                    let t1 = map.tiles@[i];
                    &&& (t0.tile_type != TileType::Wall ==> t1 == t0)
                    &&& (t0.tile_type == TileType::Wall ==> wall_glyph_matches(
                        m0,
                        i % w,
                        i / w,
                        t1.sprite.glyph,
                    ))
                },
        decreases map.tiles.len() - idx,
    {
        let mut tile = map.tiles[idx];
        proof {
            crate::map::lemma_idx_in_bounds(*map, idx as int);
        }
        if tile.tile_type == TileType::Wall {
            let p = map.idx_to_pos(idx);
            let g = wall_glyph(map, p.x, p.y, rng);
            proof {
                // neighbor masks only read tile kinds, which this pass
                // never changes, so the mask agrees with the map at entry
                if p.y >= 1 {
                    lemma_pos_idx_in_range(m0, Position { x: p.x, y: (p.y - 1) as usize });
                }
                if p.y + 1 < m0.height {
                    lemma_pos_idx_in_range(m0, Position { x: p.x, y: (p.y + 1) as usize });
                }
                if p.x >= 1 {
                    lemma_pos_idx_in_range(m0, Position { x: (p.x - 1) as usize, y: p.y });
                }
                if p.x + 1 < m0.width {
                    lemma_pos_idx_in_range(m0, Position { x: (p.x + 1) as usize, y: p.y });
                }
                assert(spec_wall_mask(*map, p.x as int, p.y as int) == spec_wall_mask(
                    m0,
                    p.x as int,
                    p.y as int,
                ));
            }
            tile.sprite.glyph = g;
        }
        map.tiles.set(idx, tile);
        idx = idx + 1;
    }
}

} // verus!
