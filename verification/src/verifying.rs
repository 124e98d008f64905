//! The verifier: it learns whether the two graphs are isomorphic, and
//! nothing about the witness.

use crate::challenge::sample;
use crate::commitment::opens;
use crate::commitment::verify_open;
use crate::commitment::Commitment;
use crate::error::ProtocolError;
use crate::graph::is_isomorphic_under;
use crate::graph::isomorphic_under;
use crate::graph::GraphModel;
use crate::graph::LabeledGraph;
use crate::response::Response;
use crate::response::ResponseModel;
use rand::rngs::StdRng;
use vstd::prelude::*;

verus! {

/// Where a verifier stands in its round.
#[derive(Clone, Copy, Debug, PartialEq, Eq, Structural)]
pub enum VerifierState {
    /// No commitment has come in yet.
    AwaitingCommitment,
    /// The challenge is out, and no answer has come in.
    AwaitingResponse,
    /// The round is decided.
    Decided,
}

/// A verifier as a mathematical value. `commitment` and `challenge` are those
/// of the round once the commitment has come in, and `accepted` is the
/// decision once the round is decided.
pub struct VerifierModel {
    pub g1: GraphModel,
    pub g2: GraphModel,
    pub state: VerifierState,
    pub commitment: Seq<u8>,
    pub challenge: bool,
    pub accepted: bool,
}

/// The verifier's rule. An answer to a challenge is accepted exactly if its
/// opening opens the commitment and its permutation is an isomorphism onto
/// the opened graph: from the first graph on the challenge `false`, from the
/// second on the challenge `true`.
pub open spec fn accepts(
    g1: GraphModel,
    g2: GraphModel,
    commitment: Seq<u8>,
    challenge: bool,
    response: ResponseModel,
) -> bool {
    &&& opens(commitment, response.opening)
    &&& isomorphic_under(
        if challenge {
            g2
        } else {
            g1
        },
        response.opening.graph,
        response.permutation,
    )
}

/// The verifier's side of one round. It serves one round and no second one.
pub struct Verifier {
    g1: LabeledGraph,
    g2: LabeledGraph,
    state: VerifierState,
    commitment: Commitment,
    challenge: bool,
    accepted: bool,
}

impl View for Verifier {
    type V = VerifierModel;

    closed spec fn view(&self) -> VerifierModel {
        VerifierModel {
            g1: self.g1@,
            g2: self.g2@,
            state: self.state,
            commitment: self.commitment@,
            challenge: self.challenge,
            accepted: self.accepted,
        }
    }
}

impl Verifier {
    /// A verifier for the claim that `g1` and `g2` are isomorphic, before its
    /// round. Fails with `SizeMismatch` exactly where the graphs differ in
    /// size: no round is needed to turn that claim down.
    pub fn new(g1: LabeledGraph, g2: LabeledGraph) -> (made: Result<Verifier, ProtocolError>)
        ensures
            g1@.nodes == g2@.nodes ==> made is Ok && made->Ok_0@ == (VerifierModel {
                g1: g1@,
                g2: g2@,
                state: VerifierState::AwaitingCommitment,
                commitment: Seq::empty(),
                challenge: false,
                accepted: false,
            }),
            g1@.nodes != g2@.nodes ==> made == Err::<Verifier, ProtocolError>(
                ProtocolError::SizeMismatch,
            ),
    {
        if g1.node_count() != g2.node_count() {
            return Err(ProtocolError::SizeMismatch);
        }
        Ok(
            Verifier {
                g1,
                g2,
                state: VerifierState::AwaitingCommitment,
                commitment: Commitment::from_bytes(Vec::new()),
                challenge: false,
                accepted: false,
            },
        )
    }

    /// Where the verifier stands.
    pub fn state(&self) -> (state: VerifierState)
        ensures
            state == self@.state,
    {
        self.state
    }

    /// The decision, once there is one: `Some(true)` for an accepted round,
    /// `Some(false)` for a rejected one, `None` before.
    pub fn decision(&self) -> (decision: Option<bool>)
        ensures
            decision == if self@.state == VerifierState::Decided {
                Some(self@.accepted)
            } else {
                None::<bool>
            },
    {
        match self.state {
            VerifierState::Decided => Some(self.accepted),
            _ => None,
        }
    }

    /// Takes the commitment in and answers with a given challenge, which the
    /// verifier keeps. Fails with `ProtocolViolation` exactly where a
    /// commitment has come in before; a verifier that fails stays as it was.
    pub fn challenge_with(&mut self, commitment: Commitment, challenge: bool) -> (sent: Result<
        bool,
        ProtocolError,
    >)
        ensures
            old(self)@.state != VerifierState::AwaitingCommitment ==> sent == Err::<
                bool,
                ProtocolError,
            >(ProtocolError::ProtocolViolation) && final(self)@ == old(self)@,
            old(self)@.state == VerifierState::AwaitingCommitment ==> sent == Ok::<
                bool,
                ProtocolError,
            >(challenge) && final(self)@ == (VerifierModel {
                state: VerifierState::AwaitingResponse,
                commitment: commitment@,
                challenge: challenge,
                ..old(self)@
            }),
    {
        match self.state {
            VerifierState::AwaitingCommitment => {},
            _ => {
                return Err(ProtocolError::ProtocolViolation);
            },
        }
        self.commitment = commitment;
        self.challenge = challenge;
        self.state = VerifierState::AwaitingResponse;
        Ok(challenge)
    }

    /// Takes the commitment in and answers with a challenge that it flips
    /// from the verifier's own generator, after the commitment has come in.
    /// Fails with `ProtocolViolation` exactly where a commitment has come in
    /// before, and flips nothing in that case.
    pub fn receive_commitment(&mut self, commitment: Commitment, rng: &mut StdRng) -> (sent: Result<
        bool,
        ProtocolError,
    >)
        ensures
            old(self)@.state != VerifierState::AwaitingCommitment ==> sent == Err::<
                bool,
                ProtocolError,
            >(ProtocolError::ProtocolViolation) && final(self)@ == old(self)@,
            old(self)@.state == VerifierState::AwaitingCommitment ==> sent is Ok && final(self)@ == (
            VerifierModel {
                state: VerifierState::AwaitingResponse,
                commitment: commitment@,
                challenge: sent->Ok_0,
                ..old(self)@
            }),
    {
        match self.state {
            VerifierState::AwaitingCommitment => {},
            _ => {
                return Err(ProtocolError::ProtocolViolation);
            },
        }
        let challenge = sample(rng);
        self.challenge_with(commitment, challenge)
    }

    /// Takes the answer in and decides. Fails with `ProtocolViolation` where
    /// no challenge stands unanswered, and the verifier stays as it was.
    /// Otherwise the round is decided: it is rejected with
    /// `CommitmentMismatch` where the opening does not open the commitment,
    /// and else the result says whether the permutation is an isomorphism
    /// from the graph that the challenge chose onto the opened graph.
    pub fn receive_response(&mut self, response: &Response) -> (decided: Result<bool, ProtocolError>)
        ensures
            old(self)@.state != VerifierState::AwaitingResponse ==> decided == Err::<
                bool,
                ProtocolError,
            >(ProtocolError::ProtocolViolation) && final(self)@ == old(self)@,
            old(self)@.state == VerifierState::AwaitingResponse ==> final(self)@ == (VerifierModel {
                state: VerifierState::Decided,
                accepted: accepts(
                    old(self)@.g1,
                    old(self)@.g2,
                    old(self)@.commitment,
                    old(self)@.challenge,
                    response@,
                ),
                ..old(self)@
            }),
            old(self)@.state == VerifierState::AwaitingResponse && !opens(
                old(self)@.commitment,
                response@.opening,
            ) ==> decided == Err::<bool, ProtocolError>(ProtocolError::CommitmentMismatch),
            old(self)@.state == VerifierState::AwaitingResponse && opens(
                old(self)@.commitment,
                response@.opening,
            ) ==> decided == Ok::<bool, ProtocolError>(final(self)@.accepted),
    {
        match self.state {
            VerifierState::AwaitingResponse => {},
            _ => {
                return Err(ProtocolError::ProtocolViolation);
            },
        }
        self.state = VerifierState::Decided;
        if !verify_open(&self.commitment, response.opening()) {
            self.accepted = false;
            return Err(ProtocolError::CommitmentMismatch);
        }
        let opened = response.opening().graph();
        let accepted = if self.challenge {
            is_isomorphic_under(&self.g2, opened, response.permutation())
        } else {
            is_isomorphic_under(&self.g1, opened, response.permutation())
        };
        self.accepted = accepted;
        Ok(accepted)
    }
}

} // verus!
