//! In-game messages shown to the player, stamped with the turn they were
//! sent on.
use vstd::prelude::*;

verus! {

#[derive(Clone)]
pub struct Message {
    pub contents: String,
    pub turn_sent: usize,
}

impl Message {
    pub fn new(contents: String, turn_sent: usize) -> (m: Self)
        ensures
            m.contents == contents,
            m.turn_sent == turn_sent,
    {
        Self { contents, turn_sent }
    }
}

} // verus!
