use vstd::prelude::*;
use rand::Isaac64Rng;
use crate::rng::draw_word;
use crate::scalar::Scalar;

verus! {

/// Number of noise generators that a field picks from.
pub const NUM_PERLINS: usize = 50;

/// The generator that a drawn word picks: its remainder by
/// [`NUM_PERLINS`].
pub open spec fn spec_generator_index(raw: u32) -> int {
    raw as int % NUM_PERLINS as int
}

/// The generator that a drawn word picks.
pub fn generator_index(raw: u32) -> (index: usize)
    ensures
        index == spec_generator_index(raw),
        index < NUM_PERLINS,
{
    (raw as usize) % NUM_PERLINS
}

/// Draws a generator for one unit of a field.
pub fn draw_generator(rng: &mut Isaac64Rng) -> (index: usize)
    ensures
        index < NUM_PERLINS,
{
    generator_index(draw_word(rng))
}

/// Whether a field can be generated from these zoom bounds and this number
/// of units: the bounds are in order and there is a unit.
pub open spec fn spec_generate_accepts(low: Scalar, high: Scalar, num_units: u8) -> bool {
    low@ <= high@ && num_units > 0
}

/// Whether a field can be generated from these zoom bounds and this number
/// of units.
pub fn generate_accepts(low: Scalar, high: Scalar, num_units: u8) -> (r: bool)
    ensures
        r == spec_generate_accepts(low, high, num_units),
{
    low.le(&high) && num_units > 0
}

/// By what the number of a unit is divided to place its first zoom between
/// the bounds: one less than the number of units, so that the first unit
/// gets the lower bound and the last the upper; 1 for a single unit.
pub open spec fn spec_spread_divisor(num_units: u8) -> int {
    if num_units == 1 {
        1
    } else {
        num_units - 1
    }
}

/// By what the number of a unit is divided to place its first zoom between
/// the bounds.
pub fn spread_divisor(num_units: u8) -> (divisor: u8)
    requires
        num_units > 0,
    ensures
        divisor == spec_spread_divisor(num_units),
        divisor >= 1,
{
    if num_units == 1 {
        1
    } else {
        num_units - 1
    }
}

} // verus!
