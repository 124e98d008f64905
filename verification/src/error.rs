//! The ways in which a session can fail.

use vstd::prelude::*;

verus! {

/// What went wrong in a session. Every failure is local to its session.
#[derive(Clone, Copy, Debug, PartialEq, Eq, Structural)]
pub enum ProtocolError {
    /// An edge names a node that the graph does not have.
    MalformedGraph,
    /// A sequence of node indices does not hold each index exactly once.
    NotABijection,
    /// An opening does not hash to the commitment it is claimed for.
    CommitmentMismatch,
    /// A party acted out of turn.
    ProtocolViolation,
    /// Two graphs, or a graph and a permutation, disagree on the node count.
    SizeMismatch,
}

} // verus!
