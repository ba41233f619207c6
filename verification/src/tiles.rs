//! Hand-authored tile values: the fixed terrain palette used by maps that
//! are built without the externally loaded catalog.
use vstd::prelude::*;

use crate::actor::{CharSprite, Color};
use crate::map::{TileType, WorldTile};

verus! {

pub fn wall_stone() -> (t: WorldTile)
    ensures
        t == (WorldTile {
            is_transparent: false,
            is_blocking: true,
            sprite: CharSprite {
                glyph: 35,
                fg: Color { r: 244, g: 164, b: 96 },
                bg: Color { r: 139, g: 35, b: 35 },
            },
            tile_type: TileType::Wall,
        }),
{
    WorldTile {
        is_transparent: false,
        is_blocking: true,
        sprite: CharSprite {
            glyph: 35,  // '#'
            fg: Color { r: 244, g: 164, b: 96 },
            bg: Color { r: 139, g: 35, b: 35 },
        },
        tile_type: TileType::Wall,
    }
}

pub fn wall_adamnatite() -> (t: WorldTile)
    ensures
        t.is_blocking,
        !t.is_transparent,
        t.tile_type == TileType::Wall,
        t.sprite.glyph == 35,
{
    WorldTile {
        is_transparent: false,
        is_blocking: true,
        sprite: CharSprite {
            glyph: 35,
            fg: Color { r: 245, g: 245, b: 245 },
            bg: Color { r: 145, g: 44, b: 238 },
        },
        tile_type: TileType::Wall,
    }
}

pub fn up_stairs() -> (t: WorldTile)
    ensures
        !t.is_blocking,
        !t.is_transparent,
        t.tile_type == TileType::UpStairs,
        t.sprite.glyph == 60,
{
    WorldTile {
        is_transparent: false,
        is_blocking: false,
        sprite: CharSprite::with_color(60, Color { r: 245, g: 245, b: 245 }, None),  // '<'
        tile_type: TileType::UpStairs,
    }
}

pub fn down_stairs() -> (t: WorldTile)
    ensures
        !t.is_blocking,
        !t.is_transparent,
        t.tile_type == TileType::DownStairs,
        t.sprite.glyph == 62,
{
    WorldTile {
        is_transparent: false,
        is_blocking: false,
        sprite: CharSprite::with_color(62, Color { r: 245, g: 245, b: 245 }, None),  // '>'
        tile_type: TileType::DownStairs,
    }
}

pub fn deep_water() -> (t: WorldTile)
    ensures
        t.is_blocking,
        t.is_transparent,
        t.tile_type == TileType::Water,
        t.sprite.glyph == 126,
{
    WorldTile {
        is_transparent: true,
        is_blocking: true,
        sprite: CharSprite {
            glyph: 126,  // '~'
            fg: Color { r: 245, g: 245, b: 245 },
            bg: Color { r: 65, g: 105, b: 225 },
        },
        tile_type: TileType::Water,
    }
}

pub fn floor_stone() -> (t: WorldTile)
    ensures
        !t.is_blocking,
        t.is_transparent,
        t.tile_type == TileType::Floor,
        t.sprite.glyph == 46,
{
    WorldTile {
        is_transparent: true,
        is_blocking: false,
        sprite: CharSprite {
            glyph: 46,  // '.'
            fg: Color { r: 245, g: 245, b: 245 },
            bg: Color { r: 119, g: 136, b: 153 },
        },
        tile_type: TileType::Floor,
    }
}

pub fn floor_grass() -> (t: WorldTile)
    ensures
        !t.is_blocking,
        t.is_transparent,
        t.tile_type == TileType::Floor,
        t.sprite.glyph == 46,
{
    WorldTile {
        is_transparent: true,
        is_blocking: false,
        sprite: CharSprite {
            glyph: 46,
            fg: Color { r: 245, g: 245, b: 245 },
            bg: Color { r: 34, g: 139, b: 34 },
        },
        tile_type: TileType::Floor,
    }
}

pub fn lush_brush() -> (t: WorldTile)
    ensures
        !t.is_blocking,
        !t.is_transparent,
        t.tile_type == TileType::Special,
        t.sprite.glyph == 171,
{
    WorldTile {
        is_transparent: false,
        is_blocking: false,
        sprite: CharSprite {
            glyph: 171,  // the one-half fraction glyph
            fg: Color { r: 0, g: 205, b: 0 },
            bg: Color { r: 0, g: 100, b: 0 },
        },
        tile_type: TileType::Special,
    }
}

} // verus!
