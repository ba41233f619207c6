//! Pre-authored rectangular tile layouts stamped onto generated terrain,
//! such as the surface entrance. A prefab is built from a grid of drawing
//! glyphs; reading the drawing resource off disk is the application's
//! concern.
use vstd::prelude::*;

use crate::actor::{CharSprite, Color};
use crate::data_read::{named_tile, spec_named_tile, EntityDatabase};
use crate::map::{TileType, WorldTile};

verus! {

/// The glyph that marks the player spawn cell inside a prefab drawing.
pub const PLAYER_MARKER_GLYPH: u16 = 80;  // 'P'

/// A rectangular tile structure with one designated spawn cell, read-only
/// once loaded and consumed by stamping into the map.
pub struct Prefab {
    pub structure: Vec<WorldTile>,
    pub width: usize,
    pub height: usize,
}

impl Prefab {
    pub open spec fn wf(self) -> bool {
        self.structure.len() == self.width * self.height
    }
}

/// Converts 2d coords to a 1d row-major index.
pub fn xy_to_idx(x: usize, y: usize, width: usize) -> (idx: usize)
    requires
        y * width + x <= usize::MAX,
    ensures
        idx == x + y * width,
{
    (y * width) + x
}

/// The marker tile standing for the player spawn cell in a drawing.
pub open spec fn spec_player_marker_tile() -> WorldTile {
    WorldTile {
        sprite: CharSprite {
            glyph: PLAYER_MARKER_GLYPH,
            fg: Color { r: 0, g: 0, b: 0 },
            bg: Color { r: 0, g: 0, b: 0 },
        },
        is_blocking: true,
        is_transparent: false,
        tile_type: TileType::Special,
    }
}

/// The visibly distinct tile produced by a glyph no mapping covers; its
/// presence in a finished build signals an authoring bug in the drawing.
pub open spec fn spec_unknown_glyph_tile() -> WorldTile {
    WorldTile {
        sprite: CharSprite {
            glyph: 69,  // 'E'
            fg: Color { r: 0, g: 0, b: 0 },
            bg: Color { r: 0, g: 0, b: 0 },
        },
        is_blocking: true,
        is_transparent: false,
        tile_type: TileType::Special,
    }
}

/// The character-to-tile mapping of prefab drawings: '.' is grass floor,
/// '#' is stone wall, 'P' marks the player spawn.
pub open spec fn spec_glyph_tile(edb: EntityDatabase, glyph: u16) -> WorldTile {
    if glyph == 46 {
        spec_named_tile(edb, "Grass Floor"@)
    } else if glyph == 35 {
        spec_named_tile(edb, "Stone Wall"@)
    } else if glyph == PLAYER_MARKER_GLYPH {
        spec_player_marker_tile()
    } else {
        spec_unknown_glyph_tile()
    }
}

fn glyph_tile(edb: &EntityDatabase, glyph: u16) -> (t: WorldTile)
    ensures
        t == spec_glyph_tile(*edb, glyph),
{
    if glyph == 46 {
        named_tile(edb, "Grass Floor")
    } else if glyph == 35 {
        named_tile(edb, "Stone Wall")
    } else if glyph == PLAYER_MARKER_GLYPH {
        WorldTile {
            sprite: CharSprite {
                glyph: PLAYER_MARKER_GLYPH,
                fg: Color { r: 0, g: 0, b: 0 },
                bg: Color { r: 0, g: 0, b: 0 },
            },
            is_blocking: true,
            is_transparent: false,
            tile_type: TileType::Special,
        }
    } else {
        WorldTile {
            sprite: CharSprite {
                glyph: 69,
                fg: Color { r: 0, g: 0, b: 0 },
                bg: Color { r: 0, g: 0, b: 0 },
            },
            is_blocking: true,
            is_transparent: false,
            tile_type: TileType::Special,
        }
    }
}

/// Builds a prefab from a row-major grid of drawing glyphs using the fixed
/// character-to-tile mapping.
pub fn prefab_from_glyphs(edb: &EntityDatabase, width: usize, height: usize, glyphs: &Vec<u16>) -> (p:
    Prefab)
    requires
        glyphs.len() == width * height,
    ensures
        p.wf(),
        p.width == width,
        p.height == height,
        p.structure.len() == glyphs.len(),
        forall|i: int|
            0 <= i < glyphs.len() ==> p.structure[i] == spec_glyph_tile(*edb, #[trigger] glyphs[i]),
{
    let mut structure: Vec<WorldTile> = Vec::new();
    let mut i: usize = 0;
    while i < glyphs.len()
        invariant
            i <= glyphs.len(),
            structure.len() == i,
            forall|j: int|
                0 <= j < i ==> structure[j] == spec_glyph_tile(*edb, #[trigger] glyphs@[j]),
        decreases glyphs.len() - i,
    {
        structure.push(glyph_tile(edb, glyphs[i]));
        i = i + 1;
    }
    Prefab { structure, width, height }
}

/// Clockwise rotation.
pub enum Rotation {
    Ninety,
    OneEighty,
    TwoSeventy,
}

} // verus!
