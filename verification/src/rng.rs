//! The seeded random source used by generation: a thin boundary around the
//! `bracket_random` crate. All randomness flows through one explicitly
//! seeded generator so a `(seed, depth)` pair reproduces its level.
use vstd::prelude::*;

use bracket_random::prelude::RandomNumberGenerator;

verus! {

/// The seeded xorshift generator of the `bracket_random` crate; opaque
/// mutable state.
#[verifier::external_type_specification]
#[verifier::external_body]
pub struct ExRandomNumberGenerator(RandomNumberGenerator);

/// Relies on `RandomNumberGenerator::seeded`, which builds the xorshift
/// state from the given seed alone.
#[verifier::external_body]
pub(crate) fn rng_seeded(seed: u64) -> RandomNumberGenerator {
    RandomNumberGenerator::seeded(seed)
}

/// Relies on `RandomNumberGenerator::range`, which returns a value
/// inclusive of `min` and exclusive of `max`, and panics on an empty
/// range; the precondition rules the panic out.
#[verifier::external_body]
pub(crate) fn rng_range(rng: &mut RandomNumberGenerator, min: usize, max: usize) -> (r: usize)
    requires
        min < max,
    ensures
        min <= r < max,
{
    rng.range(min, max)
}

} // verus!
