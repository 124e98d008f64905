//! Randomness, drawn from a generator that the caller owns and hands in.
//!
//! Nothing here is proved: each function states what `rand` documents of the
//! call it makes, for every value the generator may produce.

use rand::rngs::StdRng;
use rand::seq::SliceRandom;
use rand::Rng;
use rand::RngCore;
use vstd::prelude::*;

verus! {

/// `rand::rngs::StdRng`, the generator. Nothing of its inside is known here.
#[verifier::external_type_specification]
#[verifier::external_body]
pub struct ExStdRng(rand::rngs::StdRng);

/// `Rng::gen_range` on the half-open range `low..high`. The call panics on
/// an empty range; the value it returns lies in the range.
#[verifier::external_body]
pub(crate) fn draw_below(rng: &mut StdRng, low: usize, high: usize) -> (value: usize)
    requires
        low < high,
    ensures
        low <= value < high,
{
    rng.gen_range(low..high)
}

/// `Rng::gen_ratio`: a coin that shows `true` with chance
/// `numerator / denominator`. The call panics on a zero denominator and on a
/// numerator above the denominator. With a zero numerator the coin never shows
/// `true`, and with both numbers equal it always does.
#[verifier::external_body]
pub(crate) fn draw_ratio(rng: &mut StdRng, numerator: u32, denominator: u32) -> (hit: bool)
    requires
        0 < denominator,
        numerator <= denominator,
    ensures
        numerator == 0 ==> !hit,
        numerator == denominator ==> hit,
{
    rng.gen_ratio(numerator, denominator)
}

/// `Rng::gen` for `bool`: a fair coin.
#[verifier::external_body]
pub(crate) fn draw_bit(rng: &mut StdRng) -> (bit: bool) {
    rng.gen()
}

/// `RngCore::fill_bytes`: overwrites every byte of the buffer and keeps its
/// length.
#[verifier::external_body]
pub(crate) fn fill_random(rng: &mut StdRng, buffer: &mut Vec<u8>)
    ensures
        final(buffer)@.len() == old(buffer)@.len(),
{
    rng.fill_bytes(buffer.as_mut_slice())
}

/// `SliceRandom::shuffle`: reorders the items in place by a sequence of swaps,
/// so the same items are there afterwards, each as often as before.
#[verifier::external_body]
pub(crate) fn shuffle(rng: &mut StdRng, items: &mut Vec<usize>)
    ensures
        final(items)@.to_multiset() == old(items)@.to_multiset(),
{
    items.shuffle(rng)
}

} // verus!
