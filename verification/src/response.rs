//! The prover's answer to a challenge.

use crate::commitment::Opening;
use crate::commitment::OpeningModel;
use crate::graph::relabeled;
use crate::graph::GraphModel;
use crate::permutation::composed;
use crate::permutation::inverted;
use crate::permutation::is_permutation;
use crate::permutation::Permutation;
use vstd::prelude::*;

verus! {

/// An answer as a mathematical value.
pub struct ResponseModel {
    pub opening: OpeningModel,
    pub permutation: Seq<usize>,
}

/// The answer of a prover that follows the rules. It committed to the first
/// graph relabeled by `sigma`, with `nonce`. It opens that commitment, and
/// with it shows `sigma` itself on the challenge `false`, and on the challenge
/// `true` the permutation that undoes the witness and goes on with `sigma`,
/// which leads from the second graph to the committed one.
pub open spec fn honest_response(
    g1: GraphModel,
    witness: Seq<usize>,
    sigma: Seq<usize>,
    nonce: Seq<u8>,
    challenge: bool,
) -> ResponseModel {
    ResponseModel {
        opening: OpeningModel { graph: relabeled(g1, sigma), nonce: nonce },
        permutation: if challenge {
            composed(inverted(witness), sigma)
        } else {
            sigma
        },
    }
}

/// An answer: the opening of the commitment, and a permutation.
pub struct Response {
    opening: Opening,
    permutation: Permutation,
}

impl View for Response {
    type V = ResponseModel;

    closed spec fn view(&self) -> ResponseModel {
        ResponseModel { opening: self.opening@, permutation: self.permutation@ }
    }
}

impl Response {
    /// An answer made of an opening and a permutation.
    pub fn new(opening: Opening, permutation: Permutation) -> (made: Response)
        ensures
            made@ == (ResponseModel { opening: opening@, permutation: permutation@ }),
            is_permutation(made@.permutation),
    {
        proof {
            use_type_invariant(&permutation);
        }
        Response { opening, permutation }
    }

    /// The opening that the answer holds.
    pub fn opening(&self) -> (opening: &Opening)
        ensures
            opening@ == self@.opening,
    {
        &self.opening
    }

    /// The permutation that the answer holds.
    pub fn permutation(&self) -> (permutation: &Permutation)
        ensures
            permutation@ == self@.permutation,
            is_permutation(permutation@),
    {
        proof {
            use_type_invariant(&self.permutation);
        }
        &self.permutation
    }
}

} // verus!
