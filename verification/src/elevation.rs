//! Fixed-point elevations and the rules by which a fill wears them down.
//!
//! Elevations and chances are whole numbers of millionths.  A fill starts at
//! nine tenths; each cell it claims may wear the elevation down by a random
//! amount of at least one hundredth and less than one tenth, and the fill
//! stops spreading once a roll of the dice says so or the elevation has
//! fallen below one tenth.

use crate::random::draw_between;
use rand::rngs::StdRng;
use vstd::prelude::*;

verus! {

/// One whole, in millionths.  Rolls of the dice lie below it.
pub const UNIT: u64 = 1_000_000;

/// The elevation that a fill gives to its seed cell.
pub const SEED_HEIGHT: i128 = 900_000;

/// The elevation below which a fill stops spreading.
pub const HEIGHT_FLOOR: i128 = 100_000;

/// A claimed cell wears the elevation down when its roll lies below this.
pub const DECAY_CHANCE: u64 = 750_000;

/// A fill stops spreading when the roll of a claimed cell lies below this.
pub const STOP_CHANCE: u64 = 10_000;

/// The least amount by which one cell wears the elevation down.
pub const DECAY_MIN: u64 = 10_000;

/// The amount that the wear of one cell stays below.
pub const DECAY_MAX: u64 = 100_000;

/// Whether a cell with this roll wears the elevation down.
pub open spec fn wears(roll: u64) -> bool {
    roll < DECAY_CHANCE
}

/// Whether a fill stops spreading at a cell, given the elevation that the
/// cell hands on and the cell's roll.
pub open spec fn stops(carried: i128, roll: u64) -> bool {
    roll < STOP_CHANCE || carried < HEIGHT_FLOOR
}

/// Decides from a roll below [`UNIT`] whether a cell wears the elevation
/// down: three rolls in four do.
pub fn decays(roll: u64) -> (worn: bool)
    ensures
        worn == wears(roll),
{
    roll < DECAY_CHANCE
}

/// Decides whether a fill stops spreading at a cell: one roll in a hundred
/// stops it, and so does an elevation below the floor.
pub fn halts(carried: i128, roll: u64) -> (stop: bool)
    ensures
        stop == stops(carried, roll),
{
    roll < STOP_CHANCE || carried < HEIGHT_FLOOR
}

/// The dice thrown for one claimed cell.
#[derive(Clone, Copy, Debug, PartialEq, Eq, Structural)]
pub struct Dice {
    /// The roll that decides whether the cell wears the elevation down.
    pub wear_roll: u64,
    /// The amount of the wear; zero where the roll decided against it.
    pub wear: u64,
    /// The roll that may stop the fill from spreading.
    pub stop_roll: u64,
}

/// The dice are such as a throw can give: both rolls lie below one whole, and
/// the wear lies within its bounds where the roll asks for it and is zero
/// where not.
pub open spec fn thrown(dice: Dice) -> bool {
    &&& dice.wear_roll < UNIT
    &&& dice.stop_roll < UNIT
    &&& wears(dice.wear_roll) ==> DECAY_MIN <= dice.wear < DECAY_MAX
    &&& !wears(dice.wear_roll) ==> dice.wear == 0
}

/// The elevation that a cell hands on, given the elevation written into it
/// and its dice.
pub open spec fn handed_on(height: i128, dice: Dice) -> int {
    if wears(dice.wear_roll) {
        height - dice.wear
    } else {
        height as int
    }
}

/// Whether a fill spreads beyond a cell: it must have been spreading when it
/// came to the cell, and the cell must not stop it.
pub open spec fn spreads_on(spreading: bool, height: i128, dice: Dice) -> bool {
    spreading && !(dice.stop_roll < STOP_CHANCE || handed_on(height, dice) < HEIGHT_FLOOR)
}

/// Throws the dice for one claimed cell: the roll for the wear, the amount of
/// the wear if the roll asks for it, and the roll for the stop.
pub fn throw_dice(rng: &mut StdRng) -> (dice: Dice)
    ensures
        thrown(dice),
{
    let wear_roll: u64 = draw_between(rng, 0, UNIT);
    let wear: u64 = if decays(wear_roll) {
        draw_between(rng, DECAY_MIN, DECAY_MAX)
    } else {
        0
    };
    let stop_roll: u64 = draw_between(rng, 0, UNIT);
    Dice { wear_roll, wear, stop_roll }
}

/// Settles what a claimed cell does to a fill, given the elevation written
/// into the cell, whether the fill was spreading when it came to the cell,
/// and the cell's dice: the elevation handed on, and whether the fill spreads
/// beyond the cell.
pub fn settle(height: i128, spreading: bool, dice: Dice) -> (outcome: (i128, bool))
    requires
        height - dice.wear >= i128::MIN,
    ensures
        outcome.0 == handed_on(height, dice),
        outcome.1 == spreads_on(spreading, height, dice),
{
    let carried: i128 = if decays(dice.wear_roll) {
        height - dice.wear as i128
    } else {
        height
    };
    let stop: bool = halts(carried, dice.stop_roll);
    (carried, spreading && !stop)
}

} // verus!
