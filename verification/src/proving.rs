//! The prover: it knows an isomorphism between the two graphs, the witness,
//! and answers one challenge without giving the witness away.

use crate::commitment::commit_with_nonce;
use crate::commitment::commitment_to;
use crate::commitment::random_nonce;
use crate::commitment::Commitment;
use crate::commitment::Opening;
use crate::commitment::OpeningModel;
use crate::commitment::NONCE_LEN;
use crate::error::ProtocolError;
use crate::graph::relabel;
use crate::graph::relabeled;
use crate::graph::GraphModel;
use crate::graph::LabeledGraph;
use crate::permutation::compose;
use crate::permutation::inverse;
use crate::permutation::is_permutation;
use crate::permutation::random_permutation;
use crate::permutation::Permutation;
use crate::response::honest_response;
use crate::response::Response;
use rand::rngs::StdRng;
use vstd::prelude::*;

verus! {

/// Where a prover stands in its round.
#[derive(Clone, Copy, Debug, PartialEq, Eq, Structural)]
pub enum ProverState {
    /// Nothing was sent yet.
    Idle,
    /// The commitment was sent, and no challenge was answered.
    Committed,
    /// The challenge was answered. The round is over for the prover.
    Responded,
}

/// A prover as a mathematical value. `sigma` and `nonce` are what went into
/// the commitment; both are empty while no commitment stands unanswered.
pub struct ProverModel {
    pub g1: GraphModel,
    pub g2: GraphModel,
    pub witness: Seq<usize>,
    pub state: ProverState,
    pub sigma: Seq<usize>,
    pub nonce: Seq<u8>,
}

/// What a prover keeps between its commitment and its answer.
struct Secret {
    sigma: Permutation,
    opening: Opening,
}

/// The prover's side of one round. It serves one round and no second one.
pub struct Prover {
    g1: LabeledGraph,
    g2: LabeledGraph,
    witness: Permutation,
    state: ProverState,
    secret: Option<Secret>,
}

impl View for Prover {
    type V = ProverModel;

    closed spec fn view(&self) -> ProverModel {
        ProverModel {
            g1: self.g1@,
            g2: self.g2@,
            witness: self.witness@,
            state: self.state,
            sigma: if self.state == ProverState::Committed && self.secret is Some {
                self.secret->Some_0.sigma@
            } else {
                Seq::empty()
            },
            nonce: if self.state == ProverState::Committed && self.secret is Some {
                self.secret->Some_0.opening@.nonce
            } else {
                Seq::empty()
            },
        }
    }
}

impl ProverModel {
    /// What holds of every prover: both graphs and the witness have one size,
    /// and what went into a standing commitment is a permutation of that size.
    pub open spec fn well_formed(self) -> bool {
        &&& self.g1.well_formed()
        &&& self.g2.well_formed()
        &&& is_permutation(self.witness)
        &&& self.g1.nodes == self.g2.nodes
        &&& self.witness.len() == self.g1.nodes
        &&& self.state == ProverState::Committed ==> is_permutation(self.sigma) && self.sigma.len()
            == self.g1.nodes
    }

    /// The graph that a standing commitment is made of, with its nonce.
    pub open spec fn committed(self) -> OpeningModel {
        OpeningModel { graph: relabeled(self.g1, self.sigma), nonce: self.nonce }
    }
}

impl Prover {
    #[verifier::type_invariant]
    spec fn sound(self) -> bool {
        &&& self.g1@.well_formed()
        &&& self.g2@.well_formed()
        &&& is_permutation(self.witness@)
        &&& self.g1@.nodes == self.g2@.nodes
        &&& self.witness@.len() == self.g1@.nodes
        &&& self.state == ProverState::Committed ==> self.secret is Some && is_permutation(
            self.secret->Some_0.sigma@,
        ) && self.secret->Some_0.sigma@.len() == self.g1@.nodes
            && self.secret->Some_0.opening@.graph == relabeled(
            self.g1@,
            self.secret->Some_0.sigma@,
        )
    }

    /// A prover for the claim that `witness` is an isomorphism from `g1` to
    /// `g2`, before its round. Fails with `SizeMismatch` exactly where the two
    /// graphs, or the first graph and the witness, differ in size. Whether the
    /// witness is an isomorphism is not looked at: a prover with a wrong one
    /// gets no further than the verifier.
    pub fn new(g1: LabeledGraph, g2: LabeledGraph, witness: Permutation) -> (made: Result<
        Prover,
        ProtocolError,
    >)
        ensures
            g1@.nodes == g2@.nodes && witness@.len() == g1@.nodes ==> made is Ok && made->Ok_0@ == (
            ProverModel {
                g1: g1@,
                g2: g2@,
                witness: witness@,
                state: ProverState::Idle,
                sigma: Seq::empty(),
                nonce: Seq::empty(),
            }) && made->Ok_0@.well_formed(),
            !(g1@.nodes == g2@.nodes && witness@.len() == g1@.nodes) ==> made == Err::<
                Prover,
                ProtocolError,
            >(ProtocolError::SizeMismatch),
    {
        proof {
            use_type_invariant(&g1);
            use_type_invariant(&g2);
            use_type_invariant(&witness);
        }
        let n: usize = g1.node_count();
        if g2.node_count() != n || witness.len() != n {
            return Err(ProtocolError::SizeMismatch);
        }
        Ok(Prover { g1, g2, witness, state: ProverState::Idle, secret: None })
    }

    /// Where the prover stands.
    pub fn state(&self) -> (state: ProverState)
        ensures
            state == self@.state,
            self@.well_formed(),
    {
        proof {
            use_type_invariant(self);
        }
        self.state
    }

    /// The first step with given randomness: relabels the first graph by
    /// `sigma`, commits to the result with `nonce`, keeps both, and hands out
    /// the commitment. Fails with `ProtocolViolation` where the prover is not
    /// idle, and otherwise with `SizeMismatch` where `sigma` has another size
    /// than the graphs; a prover that fails stays as it was.
    pub fn commit_with(&mut self, sigma: Permutation, nonce: Vec<u8>) -> (sent: Result<
        Commitment,
        ProtocolError,
    >)
        ensures
            old(self)@.state != ProverState::Idle ==> sent == Err::<Commitment, ProtocolError>(
                ProtocolError::ProtocolViolation,
            ) && final(self)@ == old(self)@,
            old(self)@.state == ProverState::Idle && sigma@.len() != old(self)@.g1.nodes ==> sent
                == Err::<Commitment, ProtocolError>(ProtocolError::SizeMismatch) && final(self)@
                == old(self)@,
            old(self)@.state == ProverState::Idle && sigma@.len() == old(self)@.g1.nodes ==> sent is Ok
                && final(self)@ == (ProverModel {
                state: ProverState::Committed,
                sigma: sigma@,
                nonce: nonce@,
                ..old(self)@
            }) && sent->Ok_0@ == commitment_to(final(self)@.committed()),
    {
        proof {
            use_type_invariant(&*self);
        }
        match self.state {
            ProverState::Idle => {},
            _ => {
                return Err(ProtocolError::ProtocolViolation);
            },
        }
        proof {
            use_type_invariant(&sigma);
        }
        match relabel(&self.g1, &sigma) {
            Err(_) => Err(ProtocolError::SizeMismatch),
            Ok(h) => {
                let (commitment, opening) = commit_with_nonce(&h, nonce);
                self.secret = Some(Secret { sigma, opening });
                self.state = ProverState::Committed;
                Ok(commitment)
            },
        }
    }

    /// The first step: draws a random permutation `sigma` and a random nonce
    /// from the prover's own generator and goes on as `commit_with` does.
    /// Fails with `ProtocolViolation` exactly where the prover is not idle,
    /// and draws nothing in that case.
    pub fn commit(&mut self, rng: &mut StdRng) -> (sent: Result<Commitment, ProtocolError>)
        ensures
            old(self)@.state != ProverState::Idle ==> sent == Err::<Commitment, ProtocolError>(
                ProtocolError::ProtocolViolation,
            ) && final(self)@ == old(self)@,
            old(self)@.state == ProverState::Idle ==> sent is Ok && final(self)@ == (ProverModel {
                state: ProverState::Committed,
                sigma: final(self)@.sigma,
                nonce: final(self)@.nonce,
                ..old(self)@
            }) && is_permutation(final(self)@.sigma) && final(self)@.sigma.len() == old(
                self,
            )@.g1.nodes && final(self)@.nonce.len() == NONCE_LEN && sent->Ok_0@ == commitment_to(
                final(self)@.committed(),
            ),
    {
        proof {
            use_type_invariant(&*self);
        }
        match self.state {
            ProverState::Idle => {},
            _ => {
                return Err(ProtocolError::ProtocolViolation);
            },
        }
        let sigma = random_permutation(rng, self.g1.node_count());
        let nonce = random_nonce(rng);
        self.commit_with(sigma, nonce)
    }

    /// The second step: answers the challenge. The answer opens the
    /// commitment; with it goes `sigma` on the challenge `false`, and on the
    /// challenge `true` the permutation that undoes the witness and goes on
    /// with `sigma`. The prover forgets `sigma` and the nonce. Fails with
    /// `ProtocolViolation` exactly where no commitment stands unanswered:
    /// before the first step, and on a second call.
    pub fn respond(&mut self, challenge: bool) -> (sent: Result<Response, ProtocolError>)
        ensures
            old(self)@.state != ProverState::Committed ==> sent == Err::<Response, ProtocolError>(
                ProtocolError::ProtocolViolation,
            ) && final(self)@ == old(self)@,
            old(self)@.state == ProverState::Committed ==> sent is Ok && sent->Ok_0@
                == honest_response(
                old(self)@.g1,
                old(self)@.witness,
                old(self)@.sigma,
                old(self)@.nonce,
                challenge,
            ) && is_permutation(sent->Ok_0@.permutation) && final(self)@ == (ProverModel {
                state: ProverState::Responded,
                sigma: Seq::empty(),
                nonce: Seq::empty(),
                ..old(self)@
            }),
    {
        proof {
            use_type_invariant(&*self);
        }
        match self.state {
            ProverState::Committed => {},
            _ => {
                return Err(ProtocolError::ProtocolViolation);
            },
        }
        let answer = match &self.secret {
            None => Err(ProtocolError::ProtocolViolation),
            Some(secret) => {
                if challenge {
                    let back = inverse(&self.witness);
                    match compose(&back, &secret.sigma) {
                        Ok(tau) => Ok(Response::new(secret.opening.clone(), tau)),
                        Err(e) => Err(e),
                    }
                } else {
                    Ok(Response::new(secret.opening.clone(), secret.sigma.clone()))
                }
            },
        };
        self.state = ProverState::Responded;
        self.secret = None;
        answer
    }
}

} // verus!
