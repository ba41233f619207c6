//! Components commonly used by actors: grid positions, character sprites,
//! and the movement attempt shared by the player and monsters.
use vstd::prelude::*;

use crate::fov::ViewShed;
use crate::map::{TileType, WorldMap};

verus! {

/// Tag component that marks the player entity.
pub struct Player;

pub struct Name(pub String);

/// A 2d integer grid coordinate; the unit of spawn points, stair locations
/// and room membership.
#[derive(Clone, Copy, Debug, PartialEq, Eq, Structural)]
pub struct Position {
    pub x: usize,
    pub y: usize,
}

impl Position {
    pub fn new(x: usize, y: usize) -> (p: Self)
        ensures
            p.x == x,
            p.y == y,
    {
        Self { x, y }
    }

    pub fn x(&self) -> (r: usize)
        ensures
            r == self.x,
    {
        self.x
    }

    pub fn y(&self) -> (r: usize)
        ensures
            r == self.y,
    {
        self.y
    }
}

/// An rgb color with 8-bit channels.
#[derive(Clone, Copy, Debug, PartialEq, Eq, Structural)]
pub struct Color {
    pub r: u8,
    pub g: u8,
    pub b: u8,
}

/// A single drawable cell: a glyph index in the terminal font plus
/// foreground and background colors.
#[derive(Clone, Copy, Debug, PartialEq, Eq, Structural)]
pub struct CharSprite {
    pub glyph: u16,
    pub fg: Color,
    pub bg: Color,
}

/// Why a movement attempt was rejected.
#[derive(Clone, Copy, Debug, PartialEq, Eq, Structural)]
pub enum MoveError {
    OutOfBounds,
    Blocked,
}

/// What came of a movement attempt: the actor moved, met a being to
/// attack, or could not move.
#[derive(Clone, Copy, Debug, PartialEq, Eq, Structural)]
pub enum MoveResult {
    Acted,
    Attack(u64),
    InvalidMove(MoveError),
}

/// The player may descend here: the tile underfoot is a down staircase.
pub fn try_descend(map: &WorldMap, player_pos: &Position) -> (r: bool)
    requires
        map.wf(),
        map.in_bounds(*player_pos),
    ensures
        r == (map.tiles@[map.pos_idx(*player_pos)].tile_type == TileType::DownStairs),
{
    proof {
        crate::map::lemma_pos_idx_in_range(*map, *player_pos);
    }
    let idx = map.xy_to_idx(player_pos.x, player_pos.y);
    map.tiles[idx].tile_type == TileType::DownStairs
}

/// The player may ascend here: the tile underfoot is an up staircase, and
/// the surface cannot be left upward.
pub fn try_ascend(map: &WorldMap, player_pos: &Position, depth: usize, delta: usize) -> (r: bool)
    requires
        map.wf(),
        map.in_bounds(*player_pos),
    ensures
        r == (!(depth == 0 && delta == 1) && map.tiles@[map.pos_idx(*player_pos)].tile_type
            == TileType::UpStairs),
{
    proof {
        crate::map::lemma_pos_idx_in_range(*map, *player_pos);
    }
    let idx = map.xy_to_idx(player_pos.x, player_pos.y);
    if depth == 0 && delta == 1 {
        false
    } else if map.tiles[idx].tile_type == TileType::UpStairs {
        true
    } else {
        false
    }
}

/// Attempts to move an entity to a destination tile. Moving onto an
/// occupied tile turns into an attack on the occupant; a blocked or
/// out-of-map destination rejects the move. A landed move updates the
/// occupancy ledger and marks the mover's vision dirty.
pub fn try_move(
    map: &mut WorldMap,
    dest_tile: &Position,
    pos: &mut Position,
    view: &mut ViewShed,
    who: u64,
) -> (r: MoveResult)
    requires
        old(map).wf(),
        old(map).in_bounds(*old(pos)),
    ensures
        final (map).wf(),
        final (map).tiles == old(map).tiles,
        final (map).rooms == old(map).rooms,
        final (map).visible == old(map).visible,
        final (map).discovered == old(map).discovered,
        final (map).width == old(map).width,
        final (map).height == old(map).height,
        final (map).depth == old(map).depth,
        final (view).range == old(view).range,
        final (view).visible_tiles == old(view).visible_tiles,
        match r {
            MoveResult::Acted => {
                &&& old(map).in_bounds(*dest_tile)
                &&& !old(map).tiles@[old(map).pos_idx(*dest_tile)].is_blocking
                &&& old(map).beings@[old(map).pos_idx(*dest_tile)] is None
                &&& *final (pos) == *dest_tile
                &&& final (view).dirty
                &&& final (map).beings@ == old(map).beings@.update(
                    old(map).pos_idx(*old(pos)),
                    None,
                ).update(old(map).pos_idx(*dest_tile), Some(who))
            },
            MoveResult::Attack(t) => {
                &&& old(map).in_bounds(*dest_tile)
                &&& old(map).beings@[old(map).pos_idx(*dest_tile)] == Some(t)
                &&& final (map).beings == old(map).beings
                &&& *final (pos) == *old(pos)
                &&& final (view).dirty == old(view).dirty
            },
            MoveResult::InvalidMove(e) => {
                &&& final (map).beings == old(map).beings
                &&& *final (pos) == *old(pos)
                &&& (e == MoveError::OutOfBounds ==> !old(map).in_bounds(*dest_tile)
                    && final (view).dirty == old(view).dirty)
                &&& (e == MoveError::Blocked ==> old(map).in_bounds(*dest_tile) && old(
                    map,
                ).tiles@[old(map).pos_idx(*dest_tile)].is_blocking && old(map).beings@[old(
                    map,
                ).pos_idx(*dest_tile)] is None && final (view).dirty)
            },
        },
{
    if !map.within_bounds(*dest_tile) {
        return MoveResult::InvalidMove(MoveError::OutOfBounds);
    }
    proof {
        crate::map::lemma_pos_idx_in_range(*map, *dest_tile);
        crate::map::lemma_pos_idx_in_range(*map, *pos);
    }
    let dest_idx = map.xy_to_idx(dest_tile.x, dest_tile.y);
    if let Some(target) = map.beings[dest_idx] {
        return MoveResult::Attack(target);
    }
    // make it dirty so the vision is definitely updated
    view.dirty = true;
    if !map.tiles[dest_idx].is_blocking {
        let idx = map.xy_to_idx(pos.x, pos.y);
        *pos = *dest_tile;
        map.beings.set(idx, None);
        map.beings.set(dest_idx, Some(who));
        return MoveResult::Acted;
    }
    MoveResult::InvalidMove(MoveError::Blocked)
}

impl CharSprite {
    /// Create a new sprite; a missing background defaults to black.
    pub fn with_color(glyph: u16, fg: Color, bg: Option<Color>) -> (s: Self)
        ensures
            s.glyph == glyph,
            s.fg == fg,
            s.bg == (match bg {
                Some(c) => c,
                None => (Color { r: 0, g: 0, b: 0 }),
            }),
    {
        match bg {
            Some(bg) => Self { glyph, fg, bg },
            None => Self { glyph, fg, bg: Color { r: 0, g: 0, b: 0 } },
        }
    }

    pub fn new(glyph: u16, fg: Color, bg: Color) -> (s: Self)
        ensures
            s == (CharSprite { glyph, fg, bg }),
    {
        Self { glyph, fg, bg }
    }

    pub fn rgb(glyph: u16, fg: Color, bg: Color) -> (s: Self)
        ensures
            s == (CharSprite { glyph, fg, bg }),
    {
        Self { glyph, fg, bg }
    }

    pub fn eq(&self, other: Self) -> (r: bool)
        ensures
            r == (*self == other),
    {
        self.glyph == other.glyph && self.fg == other.fg && self.bg == other.bg
    }
}

} // verus!
