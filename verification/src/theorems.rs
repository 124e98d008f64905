//! What one round guarantees.
//!
//! A prover whose witness is an isomorphism is accepted on either challenge.
//! A prover that can answer both challenges for one commitment holds an
//! isomorphism or a collision of SHA-256: where the graphs are not isomorphic,
//! at most one of the two challenges can be answered, so a cheating prover
//! gets through a round with chance one half at most.

use crate::commitment::commitment_to;
use crate::commitment::is_collision;
use crate::commitment::lemma_binding;
use crate::encoding::encode_opening;
use crate::graph::isomorphic_under;
use crate::graph::lemma_isomorphic_to_relabeled;
use crate::graph::lemma_isomorphism_inverts;
use crate::graph::lemma_isomorphisms_compose;
use crate::graph::lemma_relabeled_well_formed;
use crate::graph::relabeled;
use crate::graph::GraphModel;
use crate::permutation::composed;
use crate::permutation::inverted;
use crate::permutation::is_permutation;
use crate::permutation::lemma_composed_cancels_behind;
use crate::permutation::lemma_composed_is_permutation;
use crate::permutation::lemma_inverted;
use crate::permutation::lemma_inverted_twice;
use crate::response::honest_response;
use crate::response::ResponseModel;
use crate::verifying::accepts;
use vstd::prelude::*;

verus! {

/// The permutation that an honest prover shows on the challenge `true` is an
/// isomorphism from the second graph onto the committed one exactly if the
/// witness is an isomorphism from the first graph to the second.
pub proof fn lemma_answer_stands_for_witness(
    g1: GraphModel,
    g2: GraphModel,
    witness: Seq<usize>,
    sigma: Seq<usize>,
)
    requires
        g1.well_formed(),
        g2.well_formed(),
        g1.nodes == g2.nodes,
        is_permutation(witness),
        is_permutation(sigma),
        witness.len() == g1.nodes,
        sigma.len() == g1.nodes,
    ensures
        isomorphic_under(g2, relabeled(g1, sigma), composed(inverted(witness), sigma))
            <==> isomorphic_under(g1, g2, witness),
{
    let h = relabeled(g1, sigma);
    let back = inverted(witness);
    let tau = composed(back, sigma);
    lemma_inverted(witness);
    lemma_inverted(sigma);
    lemma_composed_is_permutation(back, sigma);
    lemma_relabeled_well_formed(g1, sigma);
    lemma_isomorphic_to_relabeled(g1, sigma);
    if isomorphic_under(g1, g2, witness) {
        lemma_isomorphism_inverts(g1, g2, witness);
        lemma_isomorphisms_compose(g2, g1, h, back, sigma);
    }
    if isomorphic_under(g2, h, tau) {
        lemma_isomorphism_inverts(g1, h, sigma);
        lemma_isomorphisms_compose(g2, h, g1, tau, inverted(sigma));
        lemma_composed_cancels_behind(back, sigma);
        lemma_isomorphism_inverts(g2, g1, back);
        lemma_inverted_twice(witness);
    }
}

/// What becomes of an honest prover's answer: on the challenge `false` it is
/// accepted, and on the challenge `true` it is accepted exactly if the witness
/// is an isomorphism from the first graph to the second.
pub proof fn lemma_honest_answer(
    g1: GraphModel,
    g2: GraphModel,
    witness: Seq<usize>,
    sigma: Seq<usize>,
    nonce: Seq<u8>,
    challenge: bool,
)
    requires
        g1.well_formed(),
        g2.well_formed(),
        g1.nodes == g2.nodes,
        is_permutation(witness),
        is_permutation(sigma),
        witness.len() == g1.nodes,
        sigma.len() == g1.nodes,
    ensures
        accepts(
            g1,
            g2,
            commitment_to(honest_response(g1, witness, sigma, nonce, challenge).opening),
            challenge,
            honest_response(g1, witness, sigma, nonce, challenge),
        ) <==> !challenge || isomorphic_under(g1, g2, witness),
{
    lemma_answer_stands_for_witness(g1, g2, witness, sigma);
    lemma_isomorphic_to_relabeled(g1, sigma);
}

/// Completeness: a prover that follows the rules and whose witness is an
/// isomorphism from the first graph to the second is accepted, whatever the
/// challenge, the permutation and the nonce it committed with.
pub proof fn lemma_completeness(
    g1: GraphModel,
    g2: GraphModel,
    witness: Seq<usize>,
    sigma: Seq<usize>,
    nonce: Seq<u8>,
    challenge: bool,
)
    requires
        g1.well_formed(),
        g2.well_formed(),
        is_permutation(sigma),
        sigma.len() == g1.nodes,
        isomorphic_under(g1, g2, witness),
    ensures
        accepts(
            g1,
            g2,
            commitment_to(honest_response(g1, witness, sigma, nonce, challenge).opening),
            challenge,
            honest_response(g1, witness, sigma, nonce, challenge),
        ),
{
    lemma_honest_answer(g1, g2, witness, sigma, nonce, challenge);
}

/// Soundness: from accepted answers to both challenges for one commitment
/// comes an isomorphism from the first graph to the second, unless the two
/// openings are a collision of SHA-256. So where the graphs are not
/// isomorphic, no prover can be ready for both challenges.
pub proof fn lemma_two_answers_give_isomorphism(
    g1: GraphModel,
    g2: GraphModel,
    commitment: Seq<u8>,
    on_false: ResponseModel,
    on_true: ResponseModel,
)
    requires
        g1.well_formed(),
        g2.well_formed(),
        on_false.opening.graph.well_formed(),
        on_true.opening.graph.well_formed(),
        accepts(g1, g2, commitment, false, on_false),
        accepts(g1, g2, commitment, true, on_true),
    ensures
        isomorphic_under(g1, g2, composed(on_false.permutation, inverted(on_true.permutation)))
            || is_collision(
            encode_opening(on_false.opening.graph, on_false.opening.nonce),
            encode_opening(on_true.opening.graph, on_true.opening.nonce),
        ),
{
    lemma_binding(commitment, on_false.opening, on_true.opening);
    if on_false.opening == on_true.opening {
        let h = on_false.opening.graph;
        lemma_isomorphism_inverts(g2, h, on_true.permutation);
        lemma_isomorphisms_compose(
            g1,
            h,
            g2,
            on_false.permutation,
            inverted(on_true.permutation),
        );
    }
}

} // verus!
