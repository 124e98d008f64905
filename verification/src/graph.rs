//! Undirected graphs on the nodes `0`, `1`, ... below a node count.
//!
//! An edge is an unordered pair of nodes. It is kept with its smaller node
//! first, and no edge is kept twice, so two edge lists describe the same
//! graph exactly when they hold the same pairs. Nodes and edges are stored in
//! a `petgraph` graph.

use crate::error::ProtocolError;
use crate::permutation::composed;
use crate::permutation::identity_map;
use crate::permutation::inverted;
use crate::permutation::is_permutation;
use crate::permutation::lemma_composed_is_permutation;
use crate::permutation::lemma_inverse_cancels;
use crate::permutation::lemma_inverted;
use crate::pairs::all_pairs;
use crate::pairs::chosen;
use crate::pairs::lemma_chosen;
use crate::pairs::lemma_chosen_step;
use crate::pairs::lemma_pair_count;
use crate::pairs::lemma_pairs_before;
use crate::pairs::pairs_before;
use crate::pairs::pairs_of;
use crate::permutation::Permutation;
use crate::rng::draw_below;
use crate::rng::draw_ratio;
use crate::store::store_add_edge;
use crate::store::store_add_node;
use crate::store::store_contains_edge;
use crate::store::store_edge_count;
use crate::store::store_edges;
use crate::store::store_endpoints;
use crate::store::store_new;
use crate::store::store_node_count;
use crate::store::store_nodes;
use crate::store::STORE_LIMIT;
use petgraph::graph::UnGraph;
use rand::rngs::StdRng;
use vstd::prelude::*;
use vstd::seq_lib::*;

verus! {

/// An unordered pair of nodes in the one form in which it is kept: the
/// smaller node first.
pub open spec fn normalized(u: usize, v: usize) -> (usize, usize) {
    if u <= v {
        (u, v)
    } else {
        (v, u)
    }
}

/// The edge that `e` becomes when every node `x` is renamed to `p[x]`.
pub open spec fn relabeled_edge(e: (usize, usize), p: Seq<usize>) -> (usize, usize) {
    normalized(p[e.0 as int], p[e.1 as int])
}

/// Whether every pair names only nodes below `n`.
pub open spec fn within(pairs: Seq<(usize, usize)>, n: nat) -> bool {
    forall|i: int| 0 <= i < pairs.len() ==> (#[trigger] pairs[i]).0 < n && pairs[i].1 < n
}

/// The pairs of a list in normal form, each at the place where the list
/// first names it.
pub open spec fn distinct_normalized(pairs: Seq<(usize, usize)>) -> Seq<(usize, usize)>
    decreases pairs.len(),
{
    if pairs.len() == 0 {
        Seq::empty()
    } else {
        let before = distinct_normalized(pairs.drop_last());
        let e = normalized(pairs.last().0, pairs.last().1);
        if before.contains(e) {
            before
        } else {
            before.push(e)
        }
    }
}

/// A graph as a mathematical value: its node count and its edges in the order
/// in which they are kept.
pub struct GraphModel {
    pub nodes: nat,
    pub edges: Seq<(usize, usize)>,
}

impl GraphModel {
    /// What holds of every graph: its sizes fit the storage, every edge joins
    /// two of its nodes and has the smaller one first, and no edge occurs
    /// twice.
    pub open spec fn well_formed(self) -> bool {
        &&& self.nodes <= STORE_LIMIT
        &&& self.edges.len() <= STORE_LIMIT
        &&& forall|i: int|
            0 <= i < self.edges.len() ==> (#[trigger] self.edges[i]).0 <= self.edges[i].1
                && self.edges[i].1 < self.nodes
        &&& self.edges.no_duplicates()
    }

    /// The edges as a set.
    pub open spec fn edge_set(self) -> Set<(usize, usize)> {
        self.edges.to_set()
    }

    /// Whether an edge joins `u` and `v`, in either order.
    pub open spec fn has_edge(self, u: usize, v: usize) -> bool {
        self.edges.contains(normalized(u, v))
    }
}

/// The graph that `g` becomes when every node `x` is renamed to `p[x]`: the
/// same node count, and each edge renamed at its place.
pub open spec fn relabeled(g: GraphModel, p: Seq<usize>) -> GraphModel {
    GraphModel { nodes: g.nodes, edges: g.edges.map_values(|e: (usize, usize)| relabeled_edge(e, p)) }
}

/// Whether `p` is an isomorphism from `a` to `b`: both have as many nodes as
/// `p` has entries, `p` is a permutation of them, and renaming the nodes of
/// `a` by `p` gives exactly the edges of `b`.
pub open spec fn isomorphic_under(a: GraphModel, b: GraphModel, p: Seq<usize>) -> bool {
    &&& a.nodes == b.nodes
    &&& p.len() == a.nodes
    &&& is_permutation(p)
    &&& relabeled(a, p).edge_set() == b.edge_set()
}

/// What `distinct_normalized` keeps: pairs in normal form, none twice, no more
/// than the list has; and a pair is kept exactly if the list names it in one
/// order or the other.
pub proof fn lemma_distinct_normalized(pairs: Seq<(usize, usize)>, n: nat)
    requires
        within(pairs, n),
    ensures
        distinct_normalized(pairs).len() <= pairs.len(),
        distinct_normalized(pairs).no_duplicates(),
        forall|i: int|
            0 <= i < distinct_normalized(pairs).len() ==> (#[trigger] distinct_normalized(
                pairs,
            )[i]).0 <= distinct_normalized(pairs)[i].1 && distinct_normalized(pairs)[i].1 < n,
        forall|u: usize, v: usize|
            #![trigger distinct_normalized(pairs).contains(normalized(u, v))]
            distinct_normalized(pairs).contains(normalized(u, v)) <==> pairs.contains((u, v))
                || pairs.contains((v, u)),
    decreases pairs.len(),
{
    let kept = distinct_normalized(pairs);
    if pairs.len() == 0 {
    } else {
        let front = pairs.drop_last();
        let before = distinct_normalized(front);
        let last = pairs.last();
        let e = normalized(last.0, last.1);
        assert(within(front, n)) by {
            assert forall|i: int| 0 <= i < front.len() implies (#[trigger] front[i]).0 < n
                && front[i].1 < n by {
                assert(front[i] == pairs[i]);
            }
        }
        lemma_distinct_normalized(front, n);
        assert(pairs[pairs.len() - 1] == last);
        assert forall|u: usize, v: usize|
            #![trigger kept.contains(normalized(u, v))]
            kept.contains(normalized(u, v)) <==> pairs.contains((u, v)) || pairs.contains(
                (v, u),
            ) by {
            let w = normalized(u, v);
            assert(before.contains(w) <==> front.contains((u, v)) || front.contains((v, u)));
            if front.contains((u, v)) {
                let i = choose|i: int| 0 <= i < front.len() && front[i] == (u, v);
                assert(pairs[i] == (u, v));
            }
            if front.contains((v, u)) {
                let i = choose|i: int| 0 <= i < front.len() && front[i] == (v, u);
                assert(pairs[i] == (v, u));
            }
            if pairs.contains((u, v)) && !front.contains((u, v)) {
                let i = choose|i: int| 0 <= i < pairs.len() && pairs[i] == (u, v);
                if i < front.len() {
                    assert(front[i] == (u, v));
                }
                assert(last == (u, v));
            }
            if pairs.contains((v, u)) && !front.contains((v, u)) {
                let i = choose|i: int| 0 <= i < pairs.len() && pairs[i] == (v, u);
                if i < front.len() {
                    assert(front[i] == (v, u));
                }
                assert(last == (v, u));
            }
            if before.contains(e) {
                assert(kept == before);
            } else {
                assert(kept == before.push(e));
                assert(kept[kept.len() - 1] == e);
                if before.contains(w) {
                    let i = choose|i: int| 0 <= i < before.len() && before[i] == w;
                    assert(kept[i] == w);
                }
                if kept.contains(w) && !before.contains(w) {
                    let i = choose|i: int| 0 <= i < kept.len() && kept[i] == w;
                    if i < before.len() {
                        assert(before[i] == w);
                    }
                }
            }
        }
    }
}

/// Renaming the nodes of a graph by a permutation of them gives a graph.
pub proof fn lemma_relabeled_well_formed(g: GraphModel, p: Seq<usize>)
    requires
        g.well_formed(),
        is_permutation(p),
        p.len() == g.nodes,
    ensures
        relabeled(g, p).well_formed(),
        relabeled(g, p).edges.len() == g.edges.len(),
{
    let h = relabeled(g, p);
    assert forall|i: int, j: int| 0 <= i < h.edges.len() && 0 <= j < h.edges.len() && i
        != j implies h.edges[i] != h.edges[j] by {
        let a = g.edges[i];
        let b = g.edges[j];
        assert(a != b);
        assert(h.edges[i] == relabeled_edge(a, p));
        assert(h.edges[j] == relabeled_edge(b, p));
        lemma_distinct_images(p, a.0 as int, b.0 as int);
        lemma_distinct_images(p, a.0 as int, b.1 as int);
        lemma_distinct_images(p, a.1 as int, b.0 as int);
        lemma_distinct_images(p, a.1 as int, b.1 as int);
    }
}

proof fn lemma_distinct_images(p: Seq<usize>, x: int, y: int)
    requires
        is_permutation(p),
        0 <= x < p.len(),
        0 <= y < p.len(),
    ensures
        p[x] == p[y] ==> x == y,
{
    if x < y {
        assert(p[x] != p[y]);
    } else if y < x {
        assert(p[y] != p[x]);
    }
}

/// Renaming by `p` and by `q` after it is renaming by `composed(p, q)`.
pub proof fn lemma_relabeled_twice(g: GraphModel, p: Seq<usize>, q: Seq<usize>)
    requires
        g.well_formed(),
        is_permutation(p),
        p.len() == g.nodes,
        q.len() == g.nodes,
    ensures
        relabeled(relabeled(g, p), q) == relabeled(g, composed(p, q)),
{
    let once = relabeled(g, p);
    let twice = relabeled(once, q);
    let direct = relabeled(g, composed(p, q));
    assert forall|i: int| 0 <= i < twice.edges.len() implies twice.edges[i] == direct.edges[i] by {
        let e = g.edges[i];
        assert(once.edges[i] == relabeled_edge(e, p));
        assert(twice.edges[i] == relabeled_edge(once.edges[i], q));
        assert(direct.edges[i] == relabeled_edge(e, composed(p, q)));
        lemma_normalized_twice(q[p[e.0 as int] as int], q[p[e.1 as int] as int]);
    }
    assert(twice.edges =~= direct.edges);
}

/// Renaming by the identity changes nothing.
pub proof fn lemma_relabeled_identity(g: GraphModel)
    requires
        g.well_formed(),
    ensures
        relabeled(g, identity_map(g.nodes)) == g,
{
    let same = relabeled(g, identity_map(g.nodes));
    assert forall|i: int| 0 <= i < g.edges.len() implies same.edges[i] == g.edges[i] by {
        assert(same.edges[i] == relabeled_edge(g.edges[i], identity_map(g.nodes)));
    }
    assert(same.edges =~= g.edges);
}

/// Two graphs with the same edges have the same edges after the same renaming.
pub proof fn lemma_relabeled_same_edges(a: GraphModel, b: GraphModel, p: Seq<usize>)
    requires
        a.edge_set() == b.edge_set(),
    ensures
        relabeled(a, p).edge_set() == relabeled(b, p).edge_set(),
{
    lemma_relabeled_edges_within(a, b, p);
    lemma_relabeled_edges_within(b, a, p);
    assert(relabeled(a, p).edge_set() =~= relabeled(b, p).edge_set());
}

proof fn lemma_relabeled_edges_within(a: GraphModel, b: GraphModel, p: Seq<usize>)
    requires
        a.edge_set() == b.edge_set(),
    ensures
        relabeled(a, p).edge_set().subset_of(relabeled(b, p).edge_set()),
{
    let ra = relabeled(a, p);
    let rb = relabeled(b, p);
    assert forall|e: (usize, usize)| ra.edge_set().contains(e) implies rb.edge_set().contains(e) by {
        let i = choose|i: int| 0 <= i < ra.edges.len() && ra.edges[i] == e;
        assert(a.edges.contains(a.edges[i]));
        assert(a.edge_set().contains(a.edges[i]));
        assert(b.edge_set().contains(a.edges[i]));
        let j = choose|j: int| 0 <= j < b.edges.len() && b.edges[j] == a.edges[i];
        assert(rb.edges[j] == e);
    }
}

/// Every graph is isomorphic to its relabeled copy, under the permutation
/// that made the copy.
pub proof fn lemma_isomorphic_to_relabeled(g: GraphModel, p: Seq<usize>)
    requires
        is_permutation(p),
        p.len() == g.nodes,
    ensures
        isomorphic_under(g, relabeled(g, p), p),
{
}

/// An isomorphism keeps edges and keeps their absence: two nodes of `a` are
/// joined exactly if their images are joined in `b`.
pub proof fn lemma_isomorphism_preserves_edges(a: GraphModel, b: GraphModel, p: Seq<usize>)
    requires
        a.well_formed(),
        isomorphic_under(a, b, p),
    ensures
        forall|u: usize, v: usize|
            u < a.nodes && v < a.nodes ==> (#[trigger] a.has_edge(u, v) <==> b.has_edge(
                p[u as int],
                p[v as int],
            )),
{
    let ra = relabeled(a, p);
    assert forall|u: usize, v: usize| u < a.nodes && v < a.nodes implies (#[trigger] a.has_edge(u, v)
        <==> b.has_edge(p[u as int], p[v as int])) by {
        let w = normalized(u, v);
        let image = normalized(p[u as int], p[v as int]);
        lemma_normalized_twice(p[u as int], p[v as int]);
        if a.has_edge(u, v) {
            let i = choose|i: int| 0 <= i < a.edges.len() && a.edges[i] == w;
            assert(ra.edges[i] == image);
            assert(ra.edge_set().contains(image));
        }
        if b.has_edge(p[u as int], p[v as int]) {
            assert(b.edge_set().contains(image));
            assert(ra.edge_set().contains(image));
            let i = choose|i: int| 0 <= i < ra.edges.len() && ra.edges[i] == image;
            let e = a.edges[i];
            assert(ra.edges[i] == relabeled_edge(e, p));
            lemma_distinct_images(p, e.0 as int, u as int);
            lemma_distinct_images(p, e.0 as int, v as int);
            lemma_distinct_images(p, e.1 as int, u as int);
            lemma_distinct_images(p, e.1 as int, v as int);
            assert(e == w);
        }
    }
}

/// Isomorphisms compose: from `a` to `b` by `p` and from `b` to `c` by `q`
/// is from `a` to `c` by `composed(p, q)`.
pub proof fn lemma_isomorphisms_compose(
    a: GraphModel,
    b: GraphModel,
    c: GraphModel,
    p: Seq<usize>,
    q: Seq<usize>,
)
    requires
        a.well_formed(),
        isomorphic_under(a, b, p),
        isomorphic_under(b, c, q),
    ensures
        isomorphic_under(a, c, composed(p, q)),
{
    lemma_composed_is_permutation(p, q);
    lemma_relabeled_twice(a, p, q);
    lemma_relabeled_same_edges(relabeled(a, p), b, q);
}

/// An isomorphism can be undone: from `a` to `b` by `p` is from `b` to `a` by
/// `inverted(p)`.
pub proof fn lemma_isomorphism_inverts(a: GraphModel, b: GraphModel, p: Seq<usize>)
    requires
        a.well_formed(),
        isomorphic_under(a, b, p),
    ensures
        isomorphic_under(b, a, inverted(p)),
{
    let back = inverted(p);
    lemma_inverted(p);
    lemma_inverse_cancels(p);
    lemma_relabeled_same_edges(relabeled(a, p), b, back);
    lemma_relabeled_twice(a, p, back);
    lemma_relabeled_identity(a);
}

/// An undirected graph. Once made it does not change.
pub struct LabeledGraph {
    store: UnGraph<(), ()>,
}

impl View for LabeledGraph {
    type V = GraphModel;

    closed spec fn view(&self) -> GraphModel {
        GraphModel { nodes: store_nodes(self.store), edges: store_edges(self.store) }
    }
}

/// A store with `n` nodes and no edge.
fn store_with_nodes(n: usize) -> (store: UnGraph<(), ()>)
    requires
        n <= STORE_LIMIT,
    ensures
        store_nodes(store) == n,
        store_edges(store) == Seq::<(usize, usize)>::empty(),
{
    let mut store = store_new();
    let mut k: usize = 0;
    while k < n
        invariant
            k <= n,
            n <= STORE_LIMIT,
            store_nodes(store) == k,
            store_edges(store) == Seq::<(usize, usize)>::empty(),
        decreases n - k,
    {
        store_add_node(&mut store);
        k = k + 1;
    }
    store
}

impl LabeledGraph {
    /// What holds of every value of this type.
    #[verifier::type_invariant]
    pub open spec fn well_formed(self) -> bool {
        self@.well_formed()
    }

    /// The graph on `n` nodes with the given edges. A pair may come in either
    /// order and more than once: it is kept once, smaller node first. Fails
    /// with `MalformedGraph` exactly where a pair names a node that is not
    /// below `n`. Neither `n` nor the number of pairs may be above what the
    /// storage can number.
    pub fn new(n: usize, pairs: &Vec<(usize, usize)>) -> (made: Result<LabeledGraph, ProtocolError>)
        requires
            n <= STORE_LIMIT,
            pairs@.len() <= STORE_LIMIT,
        ensures
            within(pairs@, n as nat) ==> made is Ok && made->Ok_0@ == (GraphModel {
                nodes: n as nat,
                edges: distinct_normalized(pairs@),
            }) && made->Ok_0@.well_formed(),
            within(pairs@, n as nat) ==> forall|u: usize, v: usize|
                #![trigger made->Ok_0@.has_edge(u, v)]
                made->Ok_0@.has_edge(u, v) <==> pairs@.contains((u, v)) || pairs@.contains((v, u)),
            !within(pairs@, n as nat) ==> made == Err::<LabeledGraph, ProtocolError>(
                ProtocolError::MalformedGraph,
            ),
    {
        let mut store = store_with_nodes(n);
        let count: usize = pairs.len();
        let mut i: usize = 0;
        while i < count
            invariant
                i <= count,
                count == pairs@.len(),
                count <= STORE_LIMIT,
                store_nodes(store) == n,
                within(pairs@.take(i as int), n as nat),
                store_edges(store) == distinct_normalized(pairs@.take(i as int)),
            decreases count - i,
        {
            let (a, b) = pairs[i];
            if a >= n || b >= n {
                return Err(ProtocolError::MalformedGraph);
            }
            let (u, v) = if a <= b {
                (a, b)
            } else {
                (b, a)
            };
            proof {
                let upto = pairs@.take(i + 1);
                assert(upto.drop_last() =~= pairs@.take(i as int));
                assert(upto.last() == pairs@[i as int]);
                assert(within(upto, n as nat)) by {
                    assert forall|j: int| 0 <= j < upto.len() implies (#[trigger] upto[j]).0 < n
                        && upto[j].1 < n by {
                        if j < i {
                            assert(upto[j] == pairs@.take(i as int)[j]);
                        }
                    }
                }
                lemma_distinct_normalized(pairs@.take(i as int), n as nat);
                lemma_normalized_twice(u, v);
            }
            if !store_contains_edge(&store, u, v) {
                store_add_edge(&mut store, u, v);
            }
            i = i + 1;
        }
        proof {
            assert(pairs@.take(count as int) =~= pairs@);
            lemma_distinct_normalized(pairs@, n as nat);
        }
        Ok(LabeledGraph { store })
    }

    /// The number of nodes.
    pub fn node_count(&self) -> (n: usize)
        ensures
            n == self@.nodes,
    {
        store_node_count(&self.store)
    }

    /// The number of edges.
    pub fn edge_count(&self) -> (count: usize)
        ensures
            count == self@.edges.len(),
    {
        store_edge_count(&self.store)
    }

    /// Whether an edge joins `u` and `v`, in either order.
    pub fn has_edge(&self, u: usize, v: usize) -> (found: bool)
        ensures
            found == self@.has_edge(u, v),
    {
        proof {
            use_type_invariant(self);
            lemma_normalized_twice(u, v);
        }
        let n: usize = store_node_count(&self.store);
        if u >= n || v >= n {
            proof {
                if self@.has_edge(u, v) {
                    let w = normalized(u, v);
                    let i = choose|i: int| 0 <= i < self@.edges.len() && self@.edges[i] == w;
                    assert(self@.edges[i].1 < n);
                }
            }
            return false;
        }
        proof {
            let w = normalized(u, v);
            if w.0 != w.1 && self@.edges.contains((w.1, w.0)) {
                let i = choose|i: int| 0 <= i < self@.edges.len() && self@.edges[i] == (w.1, w.0);
                assert(self@.edges[i].0 <= self@.edges[i].1);
            }
        }
        store_contains_edge(&self.store, u, v)
    }

    /// The edges in the order in which they are kept, each with its smaller
    /// node first.
    pub fn edges(&self) -> (list: Vec<(usize, usize)>)
        ensures
            list@ == self@.edges,
    {
        let count: usize = store_edge_count(&self.store);
        let mut list: Vec<(usize, usize)> = Vec::new();
        let mut i: usize = 0;
        while i < count
            invariant
                i <= count,
                count == store_edges(self.store).len(),
                list@ == store_edges(self.store).take(i as int),
            decreases count - i,
        {
            match store_endpoints(&self.store, i) {
                Some(e) => {
                    list.push(e);
                },
                None => {},
            }
            assert(list@ =~= store_edges(self.store).take(i + 1));
            i = i + 1;
        }
        assert(list@ =~= self@.edges);
        list
    }
}

proof fn lemma_normalized_twice(u: usize, v: usize)
    ensures
        normalized(u, v) == normalized(v, u),
        normalized(normalized(u, v).0, normalized(u, v).1) == normalized(u, v),
        normalized(u, v).0 <= normalized(u, v).1,
{
}

impl Clone for LabeledGraph {
    fn clone(&self) -> (copy: LabeledGraph)
        ensures
            copy@ == self@,
    {
        proof {
            use_type_invariant(self);
        }
        let n: usize = store_node_count(&self.store);
        let count: usize = store_edge_count(&self.store);
        let mut store = store_with_nodes(n);
        let mut i: usize = 0;
        while i < count
            invariant
                i <= count,
                count == store_edges(self.store).len(),
                self@.well_formed(),
                store_nodes(store) == n,
                n == store_nodes(self.store),
                store_edges(store) == store_edges(self.store).take(i as int),
            decreases count - i,
        {
            match store_endpoints(&self.store, i) {
                Some((a, b)) => {
                    assert(self@.edges[i as int] == (a, b));
                    store_add_edge(&mut store, a, b);
                },
                None => {},
            }
            assert(store_edges(store) =~= store_edges(self.store).take(i + 1));
            i = i + 1;
        }
        assert(store_edges(store) =~= store_edges(self.store));
        LabeledGraph { store }
    }
}

/// The graph with every node `x` renamed to `permutation[x]`: the same node
/// count, and an edge between `permutation[u]` and `permutation[v]` for each
/// edge between `u` and `v`. The graph handed in stays as it is. Fails with
/// `SizeMismatch` exactly where the permutation does not act on as many
/// indices as the graph has nodes.
pub fn relabel(graph: &LabeledGraph, permutation: &Permutation) -> (made: Result<
    LabeledGraph,
    ProtocolError,
>)
    ensures
        permutation@.len() == graph@.nodes ==> made is Ok && made->Ok_0@ == relabeled(
            graph@,
            permutation@,
        ) && made->Ok_0@.well_formed(),
        permutation@.len() != graph@.nodes ==> made == Err::<LabeledGraph, ProtocolError>(
            ProtocolError::SizeMismatch,
        ),
{
    proof {
        use_type_invariant(graph);
        use_type_invariant(permutation);
    }
    let n: usize = store_node_count(&graph.store);
    if permutation.len() != n {
        return Err(ProtocolError::SizeMismatch);
    }
    let images = permutation.as_slice();
    let count: usize = store_edge_count(&graph.store);
    let ghost target = relabeled(graph@, permutation@);
    proof {
        lemma_relabeled_well_formed(graph@, permutation@);
    }
    let mut store = store_with_nodes(n);
    let mut i: usize = 0;
    while i < count
        invariant
            i <= count,
            count == store_edges(graph.store).len(),
            count <= STORE_LIMIT,
            graph@.well_formed(),
            is_permutation(images@),
            images@ == permutation@,
            images@.len() == n,
            n == store_nodes(graph.store),
            store_nodes(store) == n,
            target == relabeled(graph@, permutation@),
            store_edges(store) == target.edges.take(i as int),
        decreases count - i,
    {
        match store_endpoints(&graph.store, i) {
            Some((a, b)) => {
                assert(graph@.edges[i as int] == (a, b));
                let x: usize = images[a];
                let y: usize = images[b];
                if x <= y {
                    store_add_edge(&mut store, x, y);
                } else {
                    store_add_edge(&mut store, y, x);
                }
            },
            None => {},
        }
        assert(store_edges(store) =~= target.edges.take(i + 1));
        i = i + 1;
    }
    assert(store_edges(store) =~= target.edges);
    Ok(LabeledGraph { store })
}

/// Whether `permutation` is an isomorphism from `a` to `b`: whether renaming
/// the nodes of `a` by it gives exactly the edges of `b`, as many and the same
/// pairs. Graphs with different node counts, and a permutation of another
/// size, give `false`.
pub fn is_isomorphic_under(a: &LabeledGraph, b: &LabeledGraph, permutation: &Permutation) -> (holds:
    bool)
    ensures
        holds == isomorphic_under(a@, b@, permutation@),
{
    proof {
        use_type_invariant(a);
        use_type_invariant(b);
        use_type_invariant(permutation);
    }
    let n: usize = store_node_count(&a.store);
    if store_node_count(&b.store) != n || permutation.len() != n {
        return false;
    }
    let images = permutation.as_slice();
    let count: usize = store_edge_count(&a.store);
    let ghost target = relabeled(a@, permutation@);
    proof {
        lemma_relabeled_well_formed(a@, permutation@);
        target.edges.unique_seq_to_set();
        b@.edges.unique_seq_to_set();
    }
    if store_edge_count(&b.store) != count {
        return false;
    }
    let mut i: usize = 0;
    while i < count
        invariant
            i <= count,
            count == store_edges(a.store).len(),
            a@.well_formed(),
            b@.well_formed(),
            is_permutation(images@),
            images@ == permutation@,
            images@.len() == n,
            n == store_nodes(a.store),
            target == relabeled(a@, permutation@),
            target.edges.len() == count,
            forall|j: int| 0 <= j < i ==> b@.edges.contains(#[trigger] target.edges[j]),
        decreases count - i,
    {
        match store_endpoints(&a.store, i) {
            Some((u, v)) => {
                assert(a@.edges[i as int] == (u, v));
                let x: usize = images[u];
                let y: usize = images[v];
                proof {
                    lemma_normalized_twice(x, y);
                    assert(target.edges[i as int] == normalized(x, y));
                }
                if !b.has_edge(x, y) {
                    proof {
                        assert(target.edges.contains(target.edges[i as int]));
                        assert(target.edge_set().contains(normalized(x, y)));
                        assert(!b@.edge_set().contains(normalized(x, y)));
                    }
                    return false;
                }
            },
            None => {},
        }
        i = i + 1;
    }
    proof {
        seq_to_set_is_finite(target.edges);
        seq_to_set_is_finite(b@.edges);
        assert(target.edge_set().subset_of(b@.edge_set())) by {
            assert forall|e: (usize, usize)| target.edge_set().contains(e) implies b@.edge_set().contains(
                e,
            ) by {
                let j = choose|j: int| 0 <= j < target.edges.len() && target.edges[j] == e;
                assert(b@.edges.contains(target.edges[j]));
            }
        }
        vstd::set_lib::lemma_subset_equality(target.edge_set(), b@.edge_set());
    }
    true
}

/// The graph on `n` nodes that has, of all pairs of two different nodes, those
/// whose coin shows `true`.
pub open spec fn coin_graph(n: nat, coins: Seq<bool>) -> GraphModel {
    GraphModel { nodes: n, edges: chosen(all_pairs(n), coins) }
}

/// A graph chosen by coins is a graph, and none of its edges joins a node to
/// itself.
pub proof fn lemma_coin_graph(n: nat, coins: Seq<bool>)
    requires
        n <= STORE_LIMIT,
        coins.len() <= STORE_LIMIT,
        coins.len() == all_pairs(n).len(),
    ensures
        coin_graph(n, coins).well_formed(),
        forall|i: int|
            0 <= i < coin_graph(n, coins).edges.len() ==> (#[trigger] coin_graph(n, coins).edges[i]).0
                != coin_graph(n, coins).edges[i].1,
{
    let pairs = all_pairs(n);
    let edges = coin_graph(n, coins).edges;
    lemma_pairs_before(n, n);
    lemma_chosen(pairs, coins);
    assert forall|i: int| 0 <= i < edges.len() implies (#[trigger] edges[i]).0 < edges[i].1
        && edges[i].1 < n by {
        assert(pairs.contains(edges[i]));
        let j = choose|j: int| 0 <= j < pairs.len() && pairs[j] == edges[i];
        assert(pairs[j].0 < pairs[j].1);
    }
}

impl LabeledGraph {
    /// The graph on `n` nodes that has, of all pairs of two different nodes,
    /// those whose coin shows `true`. The pairs are taken in the order
    /// `(0, 1)`, `(0, 2)`, ..., `(1, 2)`, ..., and the coin at a place belongs
    /// to the pair at that place. Gives `None` exactly where there are not as
    /// many coins as pairs. Neither `n` nor the number of coins may be above
    /// what the storage can number.
    pub fn from_coins(n: usize, coins: &Vec<bool>) -> (made: Option<LabeledGraph>)
        requires
            n <= STORE_LIMIT,
            coins@.len() <= STORE_LIMIT,
        ensures
            coins@.len() == all_pairs(n as nat).len() ==> made is Some && made->Some_0@
                == coin_graph(n as nat, coins@) && made->Some_0@.well_formed(),
            coins@.len() != all_pairs(n as nat).len() ==> made is None,
    {
        let total: usize = coins.len();
        let mut store = store_with_nodes(n);
        let mut taken: usize = 0;
        let mut u: usize = 0;
        while u < n
            invariant
                u <= n,
                n <= STORE_LIMIT,
                total == coins@.len(),
                total <= STORE_LIMIT,
                taken <= total,
                taken == pairs_before(n as nat, u as nat).len(),
                store_nodes(store) == n,
                store_edges(store) == chosen(pairs_before(n as nat, u as nat), coins@.take(taken as int)),
            decreases n - u,
        {
            let mut v: usize = u + 1;
            let ghost row = pairs_of(n as nat, u as nat);
            let ghost mut visited = pairs_before(n as nat, u as nat);
            proof {
                assert(visited =~= pairs_before(n as nat, u as nat) + row.take(0));
            }
            while v < n
                invariant
                    u < v <= n,
                    n <= STORE_LIMIT,
                    total == coins@.len(),
                    total <= STORE_LIMIT,
                    taken <= total,
                    row == pairs_of(n as nat, u as nat),
                    visited == pairs_before(n as nat, u as nat) + row.take(v - u - 1),
                    taken == visited.len(),
                    store_nodes(store) == n,
                    store_edges(store) == chosen(visited, coins@.take(taken as int)),
                decreases n - v,
            {
                if taken >= total {
                    proof {
                        lemma_pair_count(n as nat, (u + 1) as nat);
                        assert(pairs_before(n as nat, (u + 1) as nat) =~= pairs_before(
                            n as nat,
                            u as nat,
                        ) + row);
                    }
                    return None;
                }
                let coin: bool = coins[taken];
                proof {
                    lemma_chosen(visited, coins@.take(taken as int));
                    lemma_chosen_step(visited, coins@.take(taken as int), (u, v), coin);
                    assert(coins@.take(taken as int).push(coin) =~= coins@.take(taken + 1));
                    assert(row[v - u - 1] == (u, v));
                    assert(visited.push((u, v)) =~= pairs_before(n as nat, u as nat) + row.take(
                        v - u,
                    ));
                    visited = visited.push((u, v));
                }
                if coin {
                    store_add_edge(&mut store, u, v);
                }
                taken = taken + 1;
                v = v + 1;
            }
            proof {
                assert(row.take(n - u - 1) =~= row);
                assert(pairs_before(n as nat, (u + 1) as nat) =~= pairs_before(n as nat, u as nat)
                    + row);
            }
            u = u + 1;
        }
        if taken != total {
            return None;
        }
        proof {
            assert(coins@.take(taken as int) =~= coins@);
            lemma_coin_graph(n as nat, coins@);
        }
        Some(LabeledGraph { store })
    }
}

/// `generate_random` draws node counts below this limit. On more nodes, the
/// graph with every possible edge would have more edges than the storage
/// can number.
pub const RANDOM_NODE_LIMIT: usize = 92_683;

/// A random graph. Its node count is drawn from `min_nodes..max_nodes`, and
/// each pair of two different nodes gets an edge with chance
/// `numerator / denominator`, by a coin of its own; the graph is
/// `from_coins` of the node count and the coins. Whatever the generator
/// gives, no edge joins a node to itself; with a zero numerator there is no
/// edge at all, and with numerator and denominator equal every pair has one.
pub fn generate_random(
    rng: &mut StdRng,
    min_nodes: usize,
    max_nodes: usize,
    numerator: u32,
    denominator: u32,
) -> (made: LabeledGraph)
    requires
        min_nodes < max_nodes <= RANDOM_NODE_LIMIT,
        0 < denominator,
        numerator <= denominator,
    ensures
        made@.well_formed(),
        min_nodes <= made@.nodes < max_nodes,
        exists|coins: Seq<bool>|
            coins.len() == all_pairs(made@.nodes).len() && made@ == #[trigger] coin_graph(
                made@.nodes,
                coins,
            ),
        forall|i: int| 0 <= i < made@.edges.len() ==> (#[trigger] made@.edges[i]).0 != made@.edges[i].1,
        numerator == 0 ==> made@.edges.len() == 0,
        numerator == denominator ==> made@.edges == all_pairs(made@.nodes),
        numerator == denominator ==> forall|u: usize, v: usize|
            u < made@.nodes && v < made@.nodes && u != v ==> #[trigger] made@.has_edge(u, v),
{
    let n: usize = draw_below(rng, min_nodes, max_nodes);
    let mut coins: Vec<bool> = Vec::new();
    let mut u: usize = 0;
    while u < n
        invariant
            u <= n,
            n < RANDOM_NODE_LIMIT,
            0 < denominator,
            numerator <= denominator,
            coins@.len() == pairs_before(n as nat, u as nat).len(),
            numerator == 0 ==> forall|k: int| 0 <= k < coins@.len() ==> !coins@[k],
            numerator == denominator ==> forall|k: int| 0 <= k < coins@.len() ==> coins@[k],
        decreases n - u,
    {
        let mut v: usize = u + 1;
        while v < n
            invariant
                u < v <= n,
                n < RANDOM_NODE_LIMIT,
                0 < denominator,
                numerator <= denominator,
                coins@.len() == pairs_before(n as nat, u as nat).len() + (v - u - 1),
                numerator == 0 ==> forall|k: int| 0 <= k < coins@.len() ==> !coins@[k],
                numerator == denominator ==> forall|k: int| 0 <= k < coins@.len() ==> coins@[k],
            decreases n - v,
        {
            let coin: bool = draw_ratio(rng, numerator, denominator);
            coins.push(coin);
            v = v + 1;
        }
        proof {
            assert(pairs_before(n as nat, (u + 1) as nat) =~= pairs_before(n as nat, u as nat)
                + pairs_of(n as nat, u as nat));
        }
        u = u + 1;
    }
    proof {
        lemma_pair_count(n as nat, n as nat);
        assert(n * (n - 1) <= 92_682 * 92_681) by (nonlinear_arith)
            requires
                0 <= n <= 92_682,
        ;
        lemma_coin_graph(n as nat, coins@);
        lemma_chosen(all_pairs(n as nat), coins@);
        lemma_pairs_before(n as nat, n as nat);
        if numerator == denominator {
            assert forall|a: usize, b: usize| a < n && b < n && a != b implies all_pairs(
                n as nat,
            ).contains(#[trigger] normalized(a, b)) by {
                if a < b {
                    assert(all_pairs(n as nat).contains((a, b)));
                } else {
                    assert(all_pairs(n as nat).contains((b, a)));
                }
            }
        }
    }
    LabeledGraph::from_coins(n, &coins).unwrap()
}

} // verus!
