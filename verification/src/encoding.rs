//! How a graph and a nonce are written as bytes before they are hashed.
//!
//! A graph is written as its node count, its edge count and its edges in
//! order, every number as eight bytes, low byte first. The nonce follows. No
//! two different pairs of a graph and a nonce are written alike.

use crate::graph::GraphModel;
use crate::graph::LabeledGraph;
use vstd::bytes::lemma_auto_spec_u64_to_from_le_bytes;
use vstd::bytes::spec_u64_from_le_bytes;
use vstd::bytes::spec_u64_to_le_bytes;
use vstd::bytes::u64_to_le_bytes;
use vstd::prelude::*;

verus! {

/// The bytes of one number.
pub open spec fn encode_word(x: usize) -> Seq<u8> {
    spec_u64_to_le_bytes(x as u64)
}

/// The bytes of an edge list: for each edge its two nodes.
pub open spec fn encode_edges(edges: Seq<(usize, usize)>) -> Seq<u8>
    decreases edges.len(),
{
    if edges.len() == 0 {
        Seq::empty()
    } else {
        encode_edges(edges.drop_last()) + encode_word(edges.last().0) + encode_word(edges.last().1)
    }
}

/// The bytes of a graph.
pub open spec fn encode_graph(g: GraphModel) -> Seq<u8> {
    encode_word(g.nodes as usize) + encode_word(g.edges.len() as usize) + encode_edges(g.edges)
}

/// The bytes that a commitment hashes: the graph, and the nonce behind it.
pub open spec fn encode_opening(g: GraphModel, nonce: Seq<u8>) -> Seq<u8> {
    encode_graph(g) + nonce
}

proof fn lemma_encode_word(x: usize, y: usize)
    ensures
        encode_word(x).len() == 8,
        encode_word(y).len() == 8,
        encode_word(x) == encode_word(y) ==> x == y,
{
    lemma_auto_spec_u64_to_from_le_bytes();
    assert(spec_u64_from_le_bytes(spec_u64_to_le_bytes(x as u64)) == x as u64);
    assert(spec_u64_from_le_bytes(spec_u64_to_le_bytes(y as u64)) == y as u64);
}

proof fn lemma_encode_edges_len(edges: Seq<(usize, usize)>)
    ensures
        encode_edges(edges).len() == 16 * edges.len(),
    decreases edges.len(),
{
    if edges.len() > 0 {
        lemma_encode_edges_len(edges.drop_last());
        lemma_encode_word(edges.last().0, 0);
        lemma_encode_word(edges.last().1, 0);
    }
}

proof fn lemma_encode_edges_injective(a: Seq<(usize, usize)>, b: Seq<(usize, usize)>)
    requires
        a.len() == b.len(),
        encode_edges(a) == encode_edges(b),
    ensures
        a == b,
    decreases a.len(),
{
    if a.len() == 0 {
        assert(a =~= b);
    } else {
        let fa = a.drop_last();
        let fb = b.drop_last();
        lemma_encode_edges_len(fa);
        lemma_encode_edges_len(fb);
        lemma_encode_word(a.last().0, b.last().0);
        lemma_encode_word(a.last().1, b.last().1);
        let ea = encode_edges(a);
        let eb = encode_edges(b);
        let m = encode_edges(fa).len() as int;
        assert(ea.subrange(0, m) =~= encode_edges(fa));
        assert(eb.subrange(0, m) =~= encode_edges(fb));
        assert(ea.subrange(m, m + 8) =~= encode_word(a.last().0));
        assert(eb.subrange(m, m + 8) =~= encode_word(b.last().0));
        assert(ea.subrange(m + 8, m + 16) =~= encode_word(a.last().1));
        assert(eb.subrange(m + 8, m + 16) =~= encode_word(b.last().1));
        lemma_encode_edges_injective(fa, fb);
        assert(a.last() == b.last());
        assert(a =~= fa.push(a.last()));
        assert(b =~= fb.push(b.last()));
    }
}

/// The encoding tells apart any two pairs of a graph and a nonce: two that
/// are written as the same bytes are the same graph and the same nonce.
pub proof fn lemma_encode_opening_injective(
    g1: GraphModel,
    nonce1: Seq<u8>,
    g2: GraphModel,
    nonce2: Seq<u8>,
)
    requires
        g1.well_formed(),
        g2.well_formed(),
        encode_opening(g1, nonce1) == encode_opening(g2, nonce2),
    ensures
        g1 == g2,
        nonce1 == nonce2,
{
    let b1 = encode_opening(g1, nonce1);
    let b2 = encode_opening(g2, nonce2);
    lemma_encode_word(g1.nodes as usize, g2.nodes as usize);
    lemma_encode_word(g1.edges.len() as usize, g2.edges.len() as usize);
    lemma_encode_edges_len(g1.edges);
    lemma_encode_edges_len(g2.edges);
    assert(b1.subrange(0, 8) =~= encode_word(g1.nodes as usize));
    assert(b2.subrange(0, 8) =~= encode_word(g2.nodes as usize));
    assert(b1.subrange(8, 16) =~= encode_word(g1.edges.len() as usize));
    assert(b2.subrange(8, 16) =~= encode_word(g2.edges.len() as usize));
    assert(g1.nodes == g2.nodes);
    assert(g1.edges.len() == g2.edges.len());
    let end = 16 + 16 * g1.edges.len() as int;
    assert(b1.subrange(16, end) =~= encode_edges(g1.edges));
    assert(b2.subrange(16, end) =~= encode_edges(g2.edges));
    lemma_encode_edges_injective(g1.edges, g2.edges);
    assert(b1.subrange(end, b1.len() as int) =~= nonce1);
    assert(b2.subrange(end, b2.len() as int) =~= nonce2);
}

/// Appends the bytes of one number.
fn push_word(out: &mut Vec<u8>, x: usize)
    ensures
        final(out)@ == old(out)@ + encode_word(x),
{
    let mut word = u64_to_le_bytes(x as u64);
    out.append(&mut word);
}

/// The bytes of a graph, as they go into a hash or a transcript.
pub fn graph_to_bytes(graph: &LabeledGraph) -> (bytes: Vec<u8>)
    ensures
        bytes@ == encode_graph(graph@),
{
    let list = graph.edges();
    let count: usize = list.len();
    let mut bytes: Vec<u8> = Vec::new();
    push_word(&mut bytes, graph.node_count());
    push_word(&mut bytes, count);
    let ghost head = bytes@;
    let mut i: usize = 0;
    while i < count
        invariant
            i <= count,
            count == list@.len(),
            bytes@ == head + encode_edges(list@.take(i as int)),
        decreases count - i,
    {
        let (u, v) = list[i];
        push_word(&mut bytes, u);
        push_word(&mut bytes, v);
        proof {
            let upto = list@.take(i + 1);
            assert(upto.drop_last() =~= list@.take(i as int));
            assert(upto.last() == (u, v));
            assert(bytes@ =~= head + encode_edges(upto));
        }
        i = i + 1;
    }
    proof {
        assert(list@.take(count as int) =~= list@);
        assert(head =~= encode_word(graph@.nodes as usize) + encode_word(graph@.edges.len() as usize));
    }
    bytes
}

} // verus!
