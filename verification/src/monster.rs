//! General info about the kinds of monsters and which behavior drives them.
//! The turn-by-turn AI itself is a pathfinding collaborator outside this
//! library.
use vstd::prelude::*;

verus! {

/// General info about the type of monster/creature.
#[derive(Clone)]
pub struct Breed {
    pub name: String,
    pub species: String,
    pub ai: BeingAI,
}

#[derive(Clone, Copy, Debug, PartialEq, Eq, Structural)]
pub enum BeingAI {
    /// Simplest AI: wander, follow the player if visible, poke the player.
    BasicPoke,
}

impl Breed {
    /// Builds a breed record from raw catalog strings; unrecognized AI names
    /// fall back to the simplest behavior.
    pub fn from(name: &str, species: &str, ai: &str) -> (b: Self)
        ensures
            b.name@ == name@,
            b.species@ == species@,
            b.ai == BeingAI::BasicPoke,
    {
        let _ = ai;
        Self { name: name.to_owned(), species: species.to_owned(), ai: BeingAI::BasicPoke }
    }
}

} // verus!
