//! Commitments: a prover binds itself to a graph without showing it, and
//! opens the commitment later.
//!
//! A commitment is the SHA-256 digest of the graph's bytes followed by a random
//! nonce. The nonce hides the graph until the opening; the digest binds the
//! prover to it, as far as SHA-256 resists collisions.

use crate::encoding::encode_opening;
use crate::encoding::graph_to_bytes;
use crate::encoding::lemma_encode_opening_injective;
use crate::graph::GraphModel;
use crate::graph::LabeledGraph;
use crate::rng::fill_random;
use rand::rngs::StdRng;
use sha2::Digest;
use sha2::Sha256;
use vstd::prelude::*;

verus! {

/// The number of random bytes in a nonce that `commit` draws.
pub const NONCE_LEN: usize = 32;

/// The SHA-256 digest of a sequence of bytes.
pub uninterp spec fn sha256_of(data: Seq<u8>) -> Seq<u8>;

/// `Sha256::digest`: the digest of the bytes, as the standard defines it. It
/// depends on the bytes alone.
#[verifier::external_body]
fn sha256(data: &[u8]) -> (digest: Vec<u8>)
    ensures
        digest@ == sha256_of(data@),
{
    Sha256::digest(data).to_vec()
}

/// What opens a commitment, as a mathematical value.
pub struct OpeningModel {
    pub graph: GraphModel,
    pub nonce: Seq<u8>,
}

/// The commitment to an opening: the digest of its bytes.
pub open spec fn commitment_to(opening: OpeningModel) -> Seq<u8> {
    sha256_of(encode_opening(opening.graph, opening.nonce))
}

/// Whether an opening opens a commitment.
pub open spec fn opens(commitment: Seq<u8>, opening: OpeningModel) -> bool {
    commitment == commitment_to(opening)
}

/// Whether two byte strings are different and have the same digest.
pub open spec fn is_collision(a: Seq<u8>, b: Seq<u8>) -> bool {
    a != b && sha256_of(a) == sha256_of(b)
}

/// Binding: two openings of one commitment are the same graph and the same
/// nonce, or their bytes are a collision of SHA-256.
pub proof fn lemma_binding(commitment: Seq<u8>, first: OpeningModel, second: OpeningModel)
    requires
        first.graph.well_formed(),
        second.graph.well_formed(),
        opens(commitment, first),
        opens(commitment, second),
    ensures
        first == second || is_collision(
            encode_opening(first.graph, first.nonce),
            encode_opening(second.graph, second.nonce),
        ),
{
    if encode_opening(first.graph, first.nonce) == encode_opening(second.graph, second.nonce) {
        lemma_encode_opening_injective(first.graph, first.nonce, second.graph, second.nonce);
    }
}

/// A binding value for a graph. It shows nothing of the graph.
pub struct Commitment {
    digest: Vec<u8>,
}

impl View for Commitment {
    type V = Seq<u8>;

    closed spec fn view(&self) -> Seq<u8> {
        self.digest@
    }
}

impl Commitment {
    /// A commitment as it arrived in a transcript.
    pub fn from_bytes(bytes: Vec<u8>) -> (made: Commitment)
        ensures
            made@ == bytes@,
    {
        Commitment { digest: bytes }
    }

    /// The bytes of the commitment, as they go into a transcript.
    pub fn to_bytes(&self) -> (bytes: Vec<u8>)
        ensures
            bytes@ == self@,
    {
        self.digest.clone()
    }
}

impl Clone for Commitment {
    fn clone(&self) -> (copy: Commitment)
        ensures
            copy@ == self@,
    {
        Commitment { digest: self.digest.clone() }
    }
}

/// What opens a commitment: the graph and the nonce that went into it. The
/// prover keeps it to itself until it answers.
pub struct Opening {
    graph: LabeledGraph,
    nonce: Vec<u8>,
}

impl View for Opening {
    type V = OpeningModel;

    closed spec fn view(&self) -> OpeningModel {
        OpeningModel { graph: self.graph@, nonce: self.nonce@ }
    }
}

impl Opening {
    /// An opening of a graph and a nonce.
    pub fn new(graph: LabeledGraph, nonce: Vec<u8>) -> (made: Opening)
        ensures
            made@ == (OpeningModel { graph: graph@, nonce: nonce@ }),
    {
        Opening { graph, nonce }
    }

    /// The graph that is opened.
    pub fn graph(&self) -> (graph: &LabeledGraph)
        ensures
            graph@ == self@.graph,
    {
        &self.graph
    }

    /// The nonce that is opened.
    pub fn nonce(&self) -> (nonce: &[u8])
        ensures
            nonce@ == self@.nonce,
    {
        self.nonce.as_slice()
    }
}

impl Clone for Opening {
    fn clone(&self) -> (copy: Opening)
        ensures
            copy@ == self@,
    {
        Opening { graph: self.graph.clone(), nonce: self.nonce.clone() }
    }
}

/// The digest of a graph's bytes followed by a nonce.
fn digest_of(graph: &LabeledGraph, nonce: &Vec<u8>) -> (digest: Vec<u8>)
    ensures
        digest@ == sha256_of(encode_opening(graph@, nonce@)),
{
    let mut bytes = graph_to_bytes(graph);
    let mut tail = nonce.clone();
    bytes.append(&mut tail);
    sha256(bytes.as_slice())
}

/// Commits to a graph with a given nonce, and hands back the commitment with
/// its opening.
pub fn commit_with_nonce(graph: &LabeledGraph, nonce: Vec<u8>) -> (made: (Commitment, Opening))
    ensures
        made.1@ == (OpeningModel { graph: graph@, nonce: nonce@ }),
        made.0@ == commitment_to(made.1@),
{
    let digest = digest_of(graph, &nonce);
    (Commitment { digest }, Opening { graph: graph.clone(), nonce })
}

/// A fresh nonce: `NONCE_LEN` bytes from the generator.
pub fn random_nonce(rng: &mut StdRng) -> (nonce: Vec<u8>)
    ensures
        nonce@.len() == NONCE_LEN,
{
    let mut nonce: Vec<u8> = Vec::new();
    let mut i: usize = 0;
    while i < NONCE_LEN
        invariant
            i <= NONCE_LEN,
            nonce@.len() == i,
        decreases NONCE_LEN - i,
    {
        nonce.push(0u8);
        i = i + 1;
    }
    fill_random(rng, &mut nonce);
    nonce
}

/// Commits to a graph with a fresh nonce of `NONCE_LEN` random bytes, and hands
/// back the commitment with its opening. The generator gives the nonce and
/// nothing else.
pub fn commit(graph: &LabeledGraph, rng: &mut StdRng) -> (made: (Commitment, Opening))
    ensures
        made.1@.graph == graph@,
        made.1@.nonce.len() == NONCE_LEN,
        made.0@ == commitment_to(made.1@),
{
    let nonce = random_nonce(rng);
    commit_with_nonce(graph, nonce)
}

/// Whether an opening opens a commitment: hashes the opening again and holds
/// the digest against the commitment. Any difference gives `false`.
pub fn verify_open(commitment: &Commitment, opening: &Opening) -> (holds: bool)
    ensures
        holds == opens(commitment@, opening@),
{
    let digest = digest_of(&opening.graph, &opening.nonce);
    same_bytes(&commitment.digest, &digest)
}

/// Whether two byte strings are equal.
fn same_bytes(a: &Vec<u8>, b: &Vec<u8>) -> (same: bool)
    ensures
        same == (a@ == b@),
{
    let n: usize = a.len();
    if b.len() != n {
        return false;
    }
    let mut i: usize = 0;
    while i < n
        invariant
            i <= n,
            n == a@.len(),
            n == b@.len(),
            forall|j: int| 0 <= j < i ==> a@[j] == b@[j],
        decreases n - i,
    {
        if a[i] != b[i] {
            return false;
        }
        i = i + 1;
    }
    assert(a@ =~= b@);
    true
}

} // verus!
