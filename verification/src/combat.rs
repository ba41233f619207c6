//! Stats used for damage calculation, and the attack resolution itself.
use vstd::prelude::*;

verus! {

/// Stats that are used for damage calculation.
pub struct CombatStats {
    pub health: u32,
    pub strength: i32,
    pub defense: i32,
}

impl CombatStats {
    pub fn new(health: u32, strength: i32, defense: i32) -> (s: Self)
        ensures
            s.health == health,
            s.strength == strength,
            s.defense == defense,
    {
        CombatStats { health, strength, defense }
    }
}

/// The damage an attacker deals through a defender's defense: the absolute
/// difference of strength and defense.
pub open spec fn spec_damage(strength: int, defense: int) -> int {
    if strength >= defense {
        strength - defense
    } else {
        defense - strength
    }
}

/// Attacks a defender, reducing its health by the damage dealt, saturating
/// at zero; returns the damage dealt so the caller can report it.
pub fn attack(defender: &mut CombatStats, attacker: &CombatStats) -> (damage: u32)
    ensures
        damage == spec_damage(attacker.strength as int, old(defender).defense as int),
        final (defender).health == if old(defender).health >= damage {
            old(defender).health - damage
        } else {
            0int
        },
        final (defender).strength == old(defender).strength,
        final (defender).defense == old(defender).defense,
{
    let diff: i64 = attacker.strength as i64 - defender.defense as i64;
    let damage_given: u32 = if diff >= 0 {
        diff as u32
    } else {
        (-diff) as u32
    };
    let new_hp = defender.health.saturating_sub(damage_given);
    defender.health = new_hp;
    damage_given
}

} // verus!
