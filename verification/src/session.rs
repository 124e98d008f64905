//! One round between a prover and a verifier that follow the rules, run in
//! one place.

use crate::error::ProtocolError;
use crate::graph::isomorphic_under;
use crate::graph::GraphModel;
use crate::graph::LabeledGraph;
use crate::permutation::Permutation;
use crate::proving::Prover;
use crate::proving::ProverState;
use crate::theorems::lemma_honest_answer;
use crate::verifying::Verifier;
use crate::verifying::VerifierState;
use rand::rngs::StdRng;
use vstd::prelude::*;

verus! {

/// A session as a mathematical value: the claim and the prover's witness.
pub struct SessionModel {
    pub g1: GraphModel,
    pub g2: GraphModel,
    pub witness: Seq<usize>,
}

/// One proof attempt: a prover and a verifier for the same two graphs, both
/// before their round. Running the round uses the session up, so nothing that
/// a round drew is ever used in a second one.
pub struct ProtocolSession {
    prover: Prover,
    verifier: Verifier,
}

impl View for ProtocolSession {
    type V = SessionModel;

    closed spec fn view(&self) -> SessionModel {
        SessionModel { g1: self.prover@.g1, g2: self.prover@.g2, witness: self.prover@.witness }
    }
}

impl ProtocolSession {
    #[verifier::type_invariant]
    spec fn sound(self) -> bool {
        &&& self.prover@.state == ProverState::Idle
        &&& self.verifier@.state == VerifierState::AwaitingCommitment
        &&& self.verifier@.g1 == self.prover@.g1
        &&& self.verifier@.g2 == self.prover@.g2
    }

    /// A session for the claim that `witness` is an isomorphism from `g1` to
    /// `g2`. Fails with `SizeMismatch` exactly where the two graphs, or the
    /// first graph and the witness, differ in size: before anything is drawn
    /// or committed.
    pub fn new(g1: &LabeledGraph, g2: &LabeledGraph, witness: Permutation) -> (made: Result<
        ProtocolSession,
        ProtocolError,
    >)
        ensures
            g1@.nodes == g2@.nodes && witness@.len() == g1@.nodes ==> made is Ok && made->Ok_0@ == (
            SessionModel { g1: g1@, g2: g2@, witness: witness@ }),
            !(g1@.nodes == g2@.nodes && witness@.len() == g1@.nodes) ==> made == Err::<
                ProtocolSession,
                ProtocolError,
            >(ProtocolError::SizeMismatch),
    {
        let prover = match Prover::new(g1.clone(), g2.clone(), witness) {
            Ok(prover) => prover,
            Err(e) => {
                return Err(e);
            },
        };
        let verifier = match Verifier::new(g1.clone(), g2.clone()) {
            Ok(verifier) => verifier,
            Err(e) => {
                return Err(e);
            },
        };
        Ok(ProtocolSession { prover, verifier })
    }

    /// Runs the round with given randomness: the prover commits with `sigma`
    /// and `nonce`, the verifier asks `challenge`, the prover answers, the
    /// verifier decides. Fails with `SizeMismatch` exactly where `sigma` has
    /// another size than the graphs. Otherwise the round is accepted on the
    /// challenge `false`, and on the challenge `true` exactly if the witness is
    /// an isomorphism from the first graph to the second.
    pub fn run_with(self, sigma: Permutation, nonce: Vec<u8>, challenge: bool) -> (decided: Result<
        bool,
        ProtocolError,
    >)
        ensures
            sigma@.len() != self@.g1.nodes ==> decided == Err::<bool, ProtocolError>(
                ProtocolError::SizeMismatch,
            ),
            sigma@.len() == self@.g1.nodes ==> decided == Ok::<bool, ProtocolError>(
                !challenge || isomorphic_under(self@.g1, self@.g2, self@.witness),
            ),
    {
        proof {
            use_type_invariant(&self);
            use_type_invariant(&sigma);
        }
        let ProtocolSession { prover, verifier } = self;
        let mut prover = prover;
        let mut verifier = verifier;
        let _ = prover.state();
        let commitment = match prover.commit_with(sigma, nonce) {
            Ok(commitment) => commitment,
            Err(e) => {
                return Err(e);
            },
        };
        let asked = match verifier.challenge_with(commitment, challenge) {
            Ok(asked) => asked,
            Err(e) => {
                return Err(e);
            },
        };
        let response = match prover.respond(asked) {
            Ok(response) => response,
            Err(e) => {
                return Err(e);
            },
        };
        proof {
            lemma_honest_answer(
                self@.g1,
                self@.g2,
                self@.witness,
                sigma@,
                nonce@,
                challenge,
            );
        }
        verifier.receive_response(&response)
    }

    /// Runs the round: the prover draws from `prover_rng`, the verifier flips
    /// its challenge from `verifier_rng`, which has to be another generator.
    /// The round always comes to a decision. Where the witness is an
    /// isomorphism from the first graph to the second the round is accepted,
    /// whatever was drawn.
    pub fn run(self, prover_rng: &mut StdRng, verifier_rng: &mut StdRng) -> (decided: Result<
        bool,
        ProtocolError,
    >)
        ensures
            decided is Ok,
            isomorphic_under(self@.g1, self@.g2, self@.witness) ==> decided == Ok::<
                bool,
                ProtocolError,
            >(true),
    {
        proof {
            use_type_invariant(&self);
        }
        let ProtocolSession { prover, verifier } = self;
        let mut prover = prover;
        let mut verifier = verifier;
        let _ = prover.state();
        let commitment = match prover.commit(prover_rng) {
            Ok(commitment) => commitment,
            Err(e) => {
                return Err(e);
            },
        };
        let ghost sigma = prover@.sigma;
        let ghost nonce = prover@.nonce;
        let asked = match verifier.receive_commitment(commitment, verifier_rng) {
            Ok(asked) => asked,
            Err(e) => {
                return Err(e);
            },
        };
        let response = match prover.respond(asked) {
            Ok(response) => response,
            Err(e) => {
                return Err(e);
            },
        };
        proof {
            lemma_honest_answer(self@.g1, self@.g2, self@.witness, sigma, nonce, asked);
        }
        verifier.receive_response(&response)
    }
}

} // verus!
