//! An interactive zero-knowledge proof of graph isomorphism.
//!
//! A prover who knows an isomorphism between two graphs convinces a verifier
//! that the graphs are isomorphic, and the verifier learns nothing else. One
//! round runs in three messages: the prover commits to a freshly relabeled copy
//! of the first graph, the verifier flips a coin, and the prover opens the
//! commitment together with a relabeling that leads from the graph the coin
//! chose to the committed copy.

pub mod error;
pub mod rng;
pub mod store;
pub mod permutation;
pub mod pairs;
pub mod graph;
pub mod encoding;
pub mod commitment;
pub mod challenge;
pub mod response;
pub mod proving;
pub mod verifying;
pub mod theorems;
pub mod session;
