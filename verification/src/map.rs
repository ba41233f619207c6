//! The map data structures: a single tile, the tile kinds, and the
//! authoritative level state produced by world generation.
use vstd::prelude::*;

use crate::actor::{CharSprite, Color, Position};
use crate::worldgen::WorldRoom;

verus! {

pub const MAP_WIDTH: usize = 100;

pub const MAP_HEIGHT: usize = 70;

#[derive(Clone, Copy, Debug, PartialEq, Eq, Structural)]
pub enum TileType {
    Floor,
    Wall,
    DownStairs,
    UpStairs,
    Water,
    Special,
    Unknown,
}

/// A single cell of the world; an immutable value replaced wholesale when a
/// cell's terrain changes.
#[derive(Clone, Copy, Debug, PartialEq, Eq, Structural)]
pub struct WorldTile {
    pub sprite: CharSprite,
    pub is_blocking: bool,
    pub is_transparent: bool,
    pub tile_type: TileType,
}

impl WorldTile {
    /// The clearly-marked placeholder returned for missing catalog data.
    pub open spec fn spec_empty() -> WorldTile {
        WorldTile {
            is_blocking: false,
            is_transparent: false,
            sprite: CharSprite {
                glyph: 63,  // '?'
                fg: Color { r: 128, g: 0, b: 128 },
                bg: Color { r: 245, g: 245, b: 245 },
            },
            tile_type: TileType::Unknown,
        }
    }

    pub fn empty() -> (t: Self)
        ensures
            t == WorldTile::spec_empty(),
    {
        Self {
            is_blocking: false,
            is_transparent: false,
            sprite: CharSprite::new(63, Color { r: 128, g: 0, b: 128 }, Color { r: 245, g: 245, b: 245 }),
            tile_type: TileType::Unknown,
        }
    }
}

/// The authoritative level state.
///
/// Invariant: `tiles`, `visible`, `discovered` and `beings` are parallel
/// row-major sequences of length `width * height`.
pub struct WorldMap {
    pub tiles: Vec<WorldTile>,
    pub rooms: Vec<WorldRoom>,
    pub visible: Vec<bool>,
    pub discovered: Vec<bool>,
    pub width: usize,
    pub height: usize,
    pub depth: usize,
    /// Being occupancy per tile, by opaque entity id; populated by spawn
    /// logic outside the generator.
    pub beings: Vec<Option<u64>>,
}

impl WorldMap {
    /// The parallel sequences cover exactly `width * height` cells.
    pub open spec fn wf(self) -> bool {
        &&& self.tiles.len() == self.width * self.height
        &&& self.visible.len() == self.tiles.len()
        &&& self.discovered.len() == self.tiles.len()
        &&& self.beings.len() == self.tiles.len()
        &&& self.width >= 1
        &&& self.height >= 1
    }

    /// The row-major flat index of a coordinate pair.
    pub open spec fn spec_idx(self, x: int, y: int) -> int {
        x + y * self.width
    }

    pub open spec fn in_bounds(self, p: Position) -> bool {
        p.x < self.width && p.y < self.height
    }

    /// The flat index of a position.
    pub open spec fn pos_idx(self, p: Position) -> int {
        self.spec_idx(p.x as int, p.y as int)
    }

    /// Generates an empty map object, useful for setting up the game before
    /// it's started.
    pub fn empty() -> (m: Self)
        ensures
            m.tiles.len() == 0,
            m.rooms.len() == 0,
            m.visible.len() == 0,
            m.discovered.len() == 0,
            m.beings.len() == 0,
            m.width == MAP_WIDTH,
            m.height == MAP_HEIGHT,
            m.depth == 0,
    {
        Self {
            tiles: Vec::new(),
            rooms: Vec::new(),
            visible: Vec::new(),
            discovered: Vec::new(),
            beings: Vec::new(),
            width: MAP_WIDTH,
            height: MAP_HEIGHT,
            depth: 0,
        }
    }

    /// Converts 2d coords to a 1d row-major index.
    pub fn xy_to_idx(&self, x: usize, y: usize) -> (idx: usize)
        requires
            x + y * self.width <= usize::MAX,
        ensures
            idx == self.spec_idx(x as int, y as int),
    {
        x + (y * self.width)
    }

    /// Converts a 1d index to a 2d position.
    pub fn idx_to_pos(&self, idx: usize) -> (p: Position)
        requires
            self.width >= 1,
        ensures
            p.x == idx % self.width,
            p.y == idx / self.width,
            self.pos_idx(p) == idx,
    {
        proof {
            let w = self.width as int;
            let i = idx as int;
            vstd::arithmetic::div_mod::lemma_fundamental_div_mod(i, w);
            assert(i == w * (i / w) + i % w);
            assert((i % w) + (i / w) * w == i) by (nonlinear_arith)
                requires
                    i == w * (i / w) + i % w,
            ;
        }
        Position { x: idx % self.width, y: idx / self.width }
    }

    /// Tiles not blocking and within map boundaries are considered valid
    /// exits for orthogonal movement.
    pub fn valid_exit(&self, start_pos: Position, dx: i32, dy: i32) -> (r: Option<usize>)
        requires
            self.wf(),
        ensures
            ({
                let tx = start_pos.x + dx as int;
                let ty = start_pos.y + dy as int;
                &&& r matches Some(i) ==> {
                    &&& 0 <= tx < self.width
                    &&& 0 <= ty < self.height
                    &&& i == self.spec_idx(tx, ty)
                    &&& i < self.tiles.len()
                    &&& !self.tiles[i as int].is_blocking
                }
                &&& r is None ==> !(0 <= tx < self.width && 0 <= ty < self.height)
                    || self.tiles[self.spec_idx(tx, ty)].is_blocking
            }),
    {
        let dest_x = start_pos.x.checked_add_signed(dx as isize);
        let dest_y = start_pos.y.checked_add_signed(dy as isize);
        match (dest_x, dest_y) {
            (Some(x), Some(y)) => {
                if x < self.width && y < self.height {
                    proof {
                        lemma_pos_idx_in_range(*self, Position { x, y });
                    }
                    let idx = self.xy_to_idx(x, y);
                    if !self.tiles[idx].is_blocking {
                        Some(idx)
                    } else {
                        None
                    }
                } else {
                    None
                }
            },
            _ => None,
        }
    }

    /// The exits of a tile: the flat index one step in the given
    /// direction, when that neighbor exists and is not blocking.
    pub open spec fn spec_exit_at(self, idx: int, dx: int, dy: int) -> Seq<usize> {
        let tx = idx % (self.width as int) + dx;
        let ty = idx / (self.width as int) + dy;
        if 0 <= tx < self.width && 0 <= ty < self.height && !self.tiles@[self.spec_idx(
            tx,
            ty,
        )].is_blocking {
            seq![(self.spec_idx(tx, ty)) as usize]
        } else {
            Seq::empty()
        }
    }

    /// The open orthogonal neighbors of a tile, in the fixed delta order
    /// left, right, up, down.
    pub open spec fn spec_available_exits(self, idx: int) -> Seq<usize> {
        self.spec_exit_at(idx, -1, 0) + self.spec_exit_at(idx, 1, 0) + self.spec_exit_at(
            idx,
            0,
            -1,
        ) + self.spec_exit_at(idx, 0, 1)
    }

    /// The flat indices of the up-to-four orthogonally adjacent tiles that
    /// can be stepped onto from the given tile: exactly the non-blocking
    /// in-bounds neighbors, in the delta order left, right, up, down.
    pub fn get_available_exits(&self, idx: usize) -> (exits: Vec<usize>)
        requires
            self.wf(),
            idx < self.tiles.len(),
        ensures
            exits@ == self.spec_available_exits(idx as int),
            exits.len() <= 4,
            forall|k: int|
                0 <= k < exits.len() ==> exits[k] < self.tiles.len()
                    && !self.tiles[exits[k] as int].is_blocking,
    {
        proof {
            lemma_idx_in_bounds(*self, idx as int);
        }
        let mut exits: Vec<usize> = Vec::new();
        let location = self.idx_to_pos(idx);
        if let Some(i) = self.valid_exit(location, -1, 0) {
            exits.push(i);
        }
        if let Some(i) = self.valid_exit(location, 1, 0) {
            exits.push(i);
        }
        if let Some(i) = self.valid_exit(location, 0, -1) {
            exits.push(i);
        }
        if let Some(i) = self.valid_exit(location, 0, 1) {
            exits.push(i);
        }
        proof {
            assert(exits@ =~= self.spec_available_exits(idx as int));
        }
        exits
    }

    /// If the tile is not transparent you cannot see through it: opaque.
    pub fn is_opaque(&self, idx: usize) -> (r: bool)
        requires
            idx < self.tiles.len(),
        ensures
            r == !self.tiles@[idx as int].is_transparent,
    {
        !self.tiles[idx].is_transparent
    }

    /// Returns true if a position is within the bounds of the map.
    pub fn within_bounds(&self, tile_pos: Position) -> (r: bool)
        ensures
            r == self.in_bounds(tile_pos),
    {
        tile_pos.x < self.width && tile_pos.y < self.height
    }
}

/// In a well-formed map, every in-bounds position has an in-range flat index.
pub broadcast proof fn lemma_pos_idx_in_range(m: WorldMap, p: Position)
    requires
        m.wf(),
        m.in_bounds(p),
    ensures
        0 <= #[trigger] m.pos_idx(p) < m.tiles.len(),
{
    assert(p.x + p.y * m.width < m.width * m.height) by (nonlinear_arith)
        requires
            p.x < m.width,
            p.y < m.height,
    ;
}

/// In a well-formed map, every in-range flat index decomposes into an
/// in-bounds coordinate pair.
pub proof fn lemma_idx_in_bounds(m: WorldMap, i: int)
    requires
        m.wf(),
        0 <= i < m.tiles.len(),
    ensures
        0 <= i % (m.width as int) < m.width,
        0 <= i / (m.width as int) < m.height,
        m.in_bounds(Position { x: (i % (m.width as int)) as usize, y: (i / (m.width as int)) as usize }),
        m.pos_idx(Position { x: (i % (m.width as int)) as usize, y: (i / (m.width as int)) as usize }) == i,
{
    let w = m.width as int;
    vstd::arithmetic::div_mod::lemma_fundamental_div_mod(i, w);
    vstd::arithmetic::div_mod::lemma_mod_bound(i, w);
    assert(i / w >= 0 && i / w < m.height) by (nonlinear_arith)
        requires
            i == w * (i / w) + i % w,
            0 <= i % w < w,
            0 <= i < m.width * m.height,
            w == m.width,
            w >= 1,
    ;
    assert((i % w) + (i / w) * w == i) by (nonlinear_arith)
        requires
            i == w * (i / w) + i % w,
    ;
}

/// Law: the flat index and the coordinate pair are two spellings of the
/// same cell. Converting an in-bounds position to its index and back
/// recovers the position, and `lemma_idx_in_bounds` gives the converse
/// direction, so `idx = x + y * width` is a bijection between in-bounds
/// positions and in-range indices.
pub proof fn lemma_pos_roundtrip(m: WorldMap, p: Position)
    requires
        m.wf(),
        m.in_bounds(p),
    ensures
        m.pos_idx(p) % (m.width as int) == p.x,
        m.pos_idx(p) / (m.width as int) == p.y,
        0 <= m.pos_idx(p) < m.tiles.len(),
{
    lemma_pos_idx_in_range(m, p);
    vstd::arithmetic::div_mod::lemma_fundamental_div_mod_converse(
        m.pos_idx(p),
        m.width as int,
        p.y as int,
        p.x as int,
    );
}

} // verus!
