//! Raw records describing living entities, as loaded from the externally
//! authored data resources.
use vstd::prelude::*;

verus! {

pub struct LivingData {
    pub all: Vec<Living>,
}

/// Used for regular living entities such as monsters, humans, good or bad,
/// anything living that is not static. Dynamic components like position are
/// added at run time.
pub struct Living {
    pub name: String,
    pub sprite: Option<RawSprite>,
    pub view_range: Option<u32>,
    pub breed: Option<String>,
    pub player: Option<String>,
}

/// A sprite as written in the data resources: a glyph index and two colors
/// spelled as hex strings.
pub struct RawSprite {
    pub glyph: u16,
    pub fg: String,
    pub bg: String,
}

} // verus!
