//! The view-shed component: which tiles an actor can currently see.
//! Field-of-view computation itself is a rendering-side collaborator; the
//! generator and movement logic only read and invalidate this record.
use vstd::prelude::*;

use crate::actor::Position;

verus! {

pub struct ViewShed {
    pub visible_tiles: Vec<Position>,
    pub range: u32,
    /// Whether the visible set must be regenerated.
    pub dirty: bool,
}

impl ViewShed {
    pub fn new(range: u32) -> (v: Self)
        ensures
            v.range == range,
            v.visible_tiles.len() == 0,
            v.dirty,
    {
        Self { range, visible_tiles: Vec::new(), dirty: true }
    }
}

} // verus!
