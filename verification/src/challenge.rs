//! The verifier's challenge: one fair coin.

use crate::rng::draw_bit;
use rand::rngs::StdRng;
use vstd::prelude::*;

verus! {

/// One fair coin flip from the generator handed in, which has to be the
/// verifier's own. The bit depends on nothing else: not on the commitment and
/// not on anything that the prover chose. `false` asks for the relabeling
/// from the first graph, `true` for the one from the second.
pub fn sample(rng: &mut StdRng) -> (bit: bool) {
    draw_bit(rng)
}

} // verus!
