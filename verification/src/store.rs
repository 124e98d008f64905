//! Where a graph keeps its nodes and edges: an undirected `petgraph` graph
//! without weights.
//!
//! Nothing here is proved. Two names stand for what a store holds, and each
//! function states over them what the `petgraph` method it calls does.

use petgraph::graph::EdgeIndex;
use petgraph::graph::NodeIndex;
use petgraph::graph::UnGraph;
use vstd::prelude::*;

verus! {

/// `petgraph::Undirected`, the marker of a graph whose edges have no direction.
#[verifier::external_type_specification]
#[verifier::external_body]
pub struct ExUndirected(petgraph::Undirected);

/// `petgraph::graph::Graph`. Nothing of its inside is known here: what it holds
/// goes by the two names below.
#[verifier::external_type_specification]
#[verifier::external_body]
#[verifier::reject_recursive_types(N)]
#[verifier::reject_recursive_types(E)]
#[verifier::reject_recursive_types(Ty)]
#[verifier::reject_recursive_types(Ix)]
pub struct ExGraph<N, E, Ty, Ix>(petgraph::graph::Graph<N, E, Ty, Ix>);

/// The largest number of nodes, and of edges, that a store can hold: it
/// numbers both with 32 bits and keeps the last number free.
pub const STORE_LIMIT: usize = 0xffff_ffff;

/// The number of nodes in a store. Its nodes are `0`, `1`, ... below that
/// number.
pub uninterp spec fn store_nodes(g: UnGraph<(), ()>) -> nat;

/// The edges in a store, in the order in which they were added, each as the
/// two nodes it was added with.
pub uninterp spec fn store_edges(g: UnGraph<(), ()>) -> Seq<(usize, usize)>;

/// `Graph::new_undirected`: a store without nodes and without edges.
#[verifier::external_body]
pub(crate) fn store_new() -> (g: UnGraph<(), ()>)
    ensures
        store_nodes(g) == 0,
        store_edges(g) == Seq::<(usize, usize)>::empty(),
{
    UnGraph::new_undirected()
}

/// `Graph::add_node`: one more node, numbered after those already there. The
/// call panics on a store that is full.
#[verifier::external_body]
pub(crate) fn store_add_node(g: &mut UnGraph<(), ()>)
    requires
        store_nodes(*old(g)) < STORE_LIMIT,
    ensures
        store_nodes(*final(g)) == store_nodes(*old(g)) + 1,
        store_edges(*final(g)) == store_edges(*old(g)),
{
    g.add_node(());
}

/// `Graph::add_edge`: one more edge, behind those already there, also where
/// an equal one is there already. The call panics on a node that the store
/// does not have and on a store that is full.
#[verifier::external_body]
pub(crate) fn store_add_edge(g: &mut UnGraph<(), ()>, a: usize, b: usize)
    requires
        a < store_nodes(*old(g)),
        b < store_nodes(*old(g)),
        store_edges(*old(g)).len() < STORE_LIMIT,
    ensures
        store_nodes(*final(g)) == store_nodes(*old(g)),
        store_edges(*final(g)) == store_edges(*old(g)).push((a, b)),
{
    g.add_edge(NodeIndex::new(a), NodeIndex::new(b), ());
}

/// `Graph::node_count`.
#[verifier::external_body]
pub(crate) fn store_node_count(g: &UnGraph<(), ()>) -> (count: usize)
    ensures
        count == store_nodes(*g),
{
    g.node_count()
}

/// `Graph::edge_count`.
#[verifier::external_body]
pub(crate) fn store_edge_count(g: &UnGraph<(), ()>) -> (count: usize)
    ensures
        count == store_edges(*g).len(),
{
    g.edge_count()
}

/// `Graph::edge_endpoints`: the two nodes that the edge at a position was
/// added with, in that order.
#[verifier::external_body]
pub(crate) fn store_endpoints(g: &UnGraph<(), ()>, position: usize) -> (ends: Option<(usize, usize)>)
    requires
        position < store_edges(*g).len(),
    ensures
        ends == Some(store_edges(*g)[position as int]),
{
    match g.edge_endpoints(EdgeIndex::new(position)) {
        Some((a, b)) => Some((a.index(), b.index())),
        None => None,
    }
}

/// `Graph::contains_edge`: whether an edge joins the two nodes. The store is
/// undirected, so an edge that was added with the nodes in the other order
/// counts as well.
#[verifier::external_body]
pub(crate) fn store_contains_edge(g: &UnGraph<(), ()>, a: usize, b: usize) -> (found: bool)
    requires
        a < store_nodes(*g),
        b < store_nodes(*g),
    ensures
        found == (store_edges(*g).contains((a, b)) || store_edges(*g).contains((b, a))),
{
    g.contains_edge(NodeIndex::new(a), NodeIndex::new(b))
}

} // verus!
