//! Raw records describing tiles, as loaded from the externally authored
//! data resources. Absent optional fields fall back to the placeholder
//! tile's values.
use vstd::prelude::*;

use crate::data_read::living_structs::RawSprite;

verus! {

pub struct TileData {
    pub all: Vec<Tile>,
}

pub struct Tile {
    pub name: String,
    pub is_transparent: Option<bool>,
    pub is_blocking: Option<bool>,
    pub sprite: Option<RawSprite>,
    pub destructible_info: Option<DestructibleInfo>,
    pub tile_type: Option<String>,
}

/// How a destructible tile breaks; consumed by interaction systems outside
/// the generation core.
pub struct DestructibleInfo {
    pub by_what: String,
    pub hits: usize,
}

} // verus!
