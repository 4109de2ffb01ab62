use vstd::prelude::*;
use rand::Isaac64Rng;
use rand::Rng;

verus! {

/// The ISAAC-64 generator of the `rand` crate. Its state is opaque here.
#[verifier::external_type_specification]
#[verifier::external_body]
pub struct ExIsaac64Rng(rand::Isaac64Rng);

/// `Rng::gen::<u8>`: the next byte of the generator's stream. Nothing is
/// claimed of the byte.
#[verifier::external_body]
pub(crate) fn draw_byte(rng: &mut Isaac64Rng) -> (byte: u8) {
    rng.gen::<u8>()
}

/// `Rng::next_u32`: the next 32-bit word of the generator's stream. Nothing
/// is claimed of the word.
#[verifier::external_body]
pub(crate) fn draw_word(rng: &mut Isaac64Rng) -> (word: u32) {
    rng.next_u32()
}

/// `Rng::gen_weighted_bool`: a draw that is true once in `n` times on
/// average. Nothing is claimed of the outcome.
#[verifier::external_body]
pub(crate) fn draw_one_in(rng: &mut Isaac64Rng, n: u32) -> (hit: bool) {
    rng.gen_weighted_bool(n)
}

/// `Rng::shuffle`: reorders `values` in place by swaps alone, so that the
/// same values are there afterwards, each as often as before. Nothing is
/// claimed of their order.
#[verifier::external_body]
pub(crate) fn shuffle(rng: &mut Isaac64Rng, values: &mut Vec<usize>)
    ensures
        final(values)@.to_multiset() == old(values)@.to_multiset(),
{
    rng.shuffle(values);
}

} // verus!
