use rand::rngs::StdRng;
use rand::SeedableRng;
use zk_graph_iso::encoding::graph_to_bytes;
use zk_graph_iso::error::ProtocolError;
use zk_graph_iso::graph::generate_random;
use zk_graph_iso::graph::is_isomorphic_under;
use zk_graph_iso::graph::relabel;
use zk_graph_iso::graph::LabeledGraph;
use zk_graph_iso::graph::RANDOM_NODE_LIMIT;
use zk_graph_iso::permutation::Permutation;
use zk_graph_iso::store::STORE_LIMIT;

fn graph(n: usize, pairs: Vec<(usize, usize)>) -> LabeledGraph {
    assert!(n <= STORE_LIMIT && pairs.len() <= STORE_LIMIT);
    match LabeledGraph::new(n, &pairs) {
        Ok(g) => g,
        Err(e) => panic!("not a graph: {:?}", e),
    }
}

fn perm(images: Vec<usize>) -> Permutation {
    match Permutation::new(images) {
        Ok(p) => p,
        Err(e) => panic!("not a permutation: {:?}", e),
    }
}

#[test]
fn new_keeps_each_pair_once_with_the_smaller_node_first() {
    let g = graph(4, vec![(2, 1), (0, 3), (1, 2), (3, 0), (2, 3)]);
    assert_eq!(g.node_count(), 4);
    assert_eq!(g.edge_count(), 3);
    assert_eq!(g.edges(), vec![(1, 2), (0, 3), (2, 3)]);
}

#[test]
fn new_takes_a_graph_without_nodes() {
    let g = graph(0, vec![]);
    assert_eq!(g.node_count(), 0);
    assert_eq!(g.edge_count(), 0);
}

#[test]
fn new_keeps_a_loop() {
    let g = graph(2, vec![(1, 1), (1, 1)]);
    assert_eq!(g.edges(), vec![(1, 1)]);
    assert!(g.has_edge(1, 1));
    assert!(!g.has_edge(0, 0));
}

#[test]
fn new_rejects_a_node_out_of_range() {
    assert!(matches!(LabeledGraph::new(3, &vec![(0, 1), (1, 3)]), Err(ProtocolError::MalformedGraph)));
    assert!(matches!(LabeledGraph::new(3, &vec![(3, 0)]), Err(ProtocolError::MalformedGraph)));
    assert!(matches!(LabeledGraph::new(0, &vec![(0, 0)]), Err(ProtocolError::MalformedGraph)));
}

#[test]
fn has_edge_looks_in_both_orders() {
    let g = graph(4, vec![(0, 1), (3, 2)]);
    assert!(g.has_edge(0, 1));
    assert!(g.has_edge(1, 0));
    assert!(g.has_edge(2, 3));
    assert!(g.has_edge(3, 2));
    assert!(!g.has_edge(0, 2));
    assert!(!g.has_edge(1, 1));
    assert!(!g.has_edge(0, 4));
    assert!(!g.has_edge(9, 1));
}

#[test]
fn relabel_renames_every_edge() {
    let g = graph(4, vec![(0, 1), (1, 2), (2, 3)]);
    let p = perm(vec![3, 1, 0, 2]);
    let h = relabel(&g, &p).expect("sizes agree");
    assert_eq!(h.node_count(), 4);
    // {0,1} -> {3,1}, {1,2} -> {1,0}, {2,3} -> {0,2}
    assert_eq!(h.edges(), vec![(1, 3), (0, 1), (0, 2)]);
    // the graph handed in is untouched
    assert_eq!(g.edges(), vec![(0, 1), (1, 2), (2, 3)]);
}

#[test]
fn relabel_by_the_identity_changes_nothing() {
    let g = graph(5, vec![(0, 4), (1, 2), (3, 3)]);
    let h = relabel(&g, &Permutation::identity(5)).expect("sizes agree");
    assert_eq!(h.edges(), g.edges());
    assert_eq!(h.node_count(), 5);
}

#[test]
fn relabel_rejects_a_permutation_of_another_size() {
    let g = graph(4, vec![(0, 1)]);
    assert!(matches!(relabel(&g, &Permutation::identity(3)), Err(ProtocolError::SizeMismatch)));
    assert!(matches!(relabel(&g, &Permutation::identity(5)), Err(ProtocolError::SizeMismatch)));
}

#[test]
fn relabel_twice_is_relabel_by_the_composition() {
    let g = graph(5, vec![(0, 1), (1, 2), (2, 3), (0, 4)]);
    let p = perm(vec![4, 2, 0, 1, 3]);
    let q = perm(vec![1, 0, 3, 4, 2]);
    let pq = zk_graph_iso::permutation::compose(&p, &q).expect("sizes agree");
    let twice = relabel(&relabel(&g, &p).expect("sizes agree"), &q).expect("sizes agree");
    let direct = relabel(&g, &pq).expect("sizes agree");
    assert_eq!(twice.edges(), direct.edges());
}

#[test]
fn is_isomorphic_under_holds_for_a_relabeled_copy() {
    let g = graph(4, vec![(0, 1), (1, 2), (2, 3)]);
    let p = perm(vec![2, 0, 3, 1]);
    let h = relabel(&g, &p).expect("sizes agree");
    assert!(is_isomorphic_under(&g, &h, &p));
    assert!(is_isomorphic_under(&h, &g, &zk_graph_iso::permutation::inverse(&p)));
}

#[test]
fn is_isomorphic_under_ignores_the_order_of_edges_and_nodes() {
    let a = graph(3, vec![(0, 1), (1, 2)]);
    let b = graph(3, vec![(2, 1), (1, 0)]);
    assert!(is_isomorphic_under(&a, &b, &Permutation::identity(3)));
    assert!(is_isomorphic_under(&a, &b, &perm(vec![2, 1, 0])));
}

#[test]
fn is_isomorphic_under_fails_for_a_wrong_permutation() {
    let path = graph(3, vec![(0, 1), (1, 2)]);
    let star = graph(3, vec![(0, 2), (1, 2)]);
    assert!(!is_isomorphic_under(&path, &star, &Permutation::identity(3)));
    assert!(is_isomorphic_under(&path, &star, &perm(vec![0, 2, 1])));
}

#[test]
fn is_isomorphic_under_fails_for_another_number_of_edges() {
    let path = graph(3, vec![(0, 1), (1, 2)]);
    let triangle = graph(3, vec![(0, 1), (1, 2), (0, 2)]);
    let single = graph(3, vec![(0, 1)]);
    assert!(!is_isomorphic_under(&path, &triangle, &Permutation::identity(3)));
    assert!(!is_isomorphic_under(&triangle, &path, &Permutation::identity(3)));
    assert!(!is_isomorphic_under(&path, &single, &Permutation::identity(3)));
}

#[test]
fn is_isomorphic_under_fails_for_different_sizes() {
    let a = graph(3, vec![(0, 1)]);
    let b = graph(4, vec![(0, 1)]);
    assert!(!is_isomorphic_under(&a, &b, &Permutation::identity(3)));
    assert!(!is_isomorphic_under(&a, &b, &Permutation::identity(4)));
    assert!(!is_isomorphic_under(&a, &a, &Permutation::identity(2)));
}

#[test]
fn generate_random_stays_in_the_node_range() {
    for seed in 0..200u64 {
        let mut rng = StdRng::seed_from_u64(seed);
        let g = generate_random(&mut rng, 5, 10, 1, 2);
        assert!(5 <= g.node_count() && g.node_count() < 10);
    }
}

#[test]
fn generate_random_reaches_every_node_count() {
    let mut seen = [false; 10];
    for seed in 0..200u64 {
        let mut rng = StdRng::seed_from_u64(seed);
        seen[generate_random(&mut rng, 5, 10, 1, 2).node_count()] = true;
    }
    assert_eq!(seen, [false, false, false, false, false, true, true, true, true, true]);
}

#[test]
fn generate_random_makes_simple_graphs() {
    for seed in 0..100u64 {
        let mut rng = StdRng::seed_from_u64(seed);
        let g = generate_random(&mut rng, 5, 10, 1, 2);
        let n = g.node_count();
        let edges = g.edges();
        for (i, &(u, v)) in edges.iter().enumerate() {
            assert!(u < v && v < n);
            assert!(!edges[..i].contains(&(u, v)));
        }
        assert!(LabeledGraph::new(n, &edges).is_ok());
    }
}

#[test]
fn generate_random_with_chance_zero_has_no_edge() {
    let mut rng = StdRng::seed_from_u64(3);
    for _ in 0..20 {
        assert_eq!(generate_random(&mut rng, 5, 10, 0, 7).edge_count(), 0);
    }
}

#[test]
fn generate_random_with_chance_one_has_every_edge() {
    let mut rng = StdRng::seed_from_u64(4);
    for _ in 0..20 {
        let g = generate_random(&mut rng, 5, 10, 7, 7);
        let n = g.node_count();
        assert_eq!(g.edge_count(), n * (n - 1) / 2);
        for u in 0..n {
            for v in 0..n {
                assert_eq!(g.has_edge(u, v), u != v);
            }
        }
    }
}

#[test]
fn generate_random_with_chance_one_half_takes_some_edges() {
    let mut total = 0usize;
    let mut possible = 0usize;
    for seed in 0..200u64 {
        let mut rng = StdRng::seed_from_u64(seed);
        let g = generate_random(&mut rng, 9, 10, 1, 2);
        total += g.edge_count();
        possible += 36;
    }
    let share = total as f64 / possible as f64;
    assert!(0.45 < share && share < 0.55);
}

#[test]
fn generate_random_takes_a_single_node_count() {
    let mut rng = StdRng::seed_from_u64(5);
    assert_eq!(generate_random(&mut rng, 1, 2, 1, 2).node_count(), 1);
    assert_eq!(generate_random(&mut rng, 0, 1, 1, 2).node_count(), 0);
    assert!(RANDOM_NODE_LIMIT > 10);
}

#[test]
fn clone_keeps_nodes_and_edges() {
    let g = graph(4, vec![(2, 3), (0, 1)]);
    let copy = g.clone();
    assert_eq!(copy.node_count(), 4);
    assert_eq!(copy.edges(), vec![(2, 3), (0, 1)]);
}

#[test]
fn graph_to_bytes_writes_counts_and_edges() {
    let g = graph(3, vec![(0, 1), (2, 1)]);
    assert_eq!(
        graph_to_bytes(&g),
        vec![
            3, 0, 0, 0, 0, 0, 0, 0, 2, 0, 0, 0, 0, 0, 0, 0, 0, 0, 0, 0, 0, 0, 0, 0, 1, 0, 0, 0, 0,
            0, 0, 0, 1, 0, 0, 0, 0, 0, 0, 0, 2, 0, 0, 0, 0, 0, 0, 0
        ]
    );
    assert_eq!(graph_to_bytes(&graph(0, vec![])), vec![0u8; 16]);
    assert_eq!(graph_to_bytes(&graph(258, vec![]))[..8], [2, 1, 0, 0, 0, 0, 0, 0]);
}

#[test]
fn from_coins_takes_the_pairs_whose_coin_shows_true() {
    // pairs in order: (0,1) (0,2) (0,3) (1,2) (1,3) (2,3)
    let g = LabeledGraph::from_coins(4, &vec![true, false, true, false, false, true]).expect("six coins");
    assert_eq!(g.node_count(), 4);
    assert_eq!(g.edges(), vec![(0, 1), (0, 3), (2, 3)]);
    let all = LabeledGraph::from_coins(4, &vec![true; 6]).expect("six coins");
    assert_eq!(all.edges(), vec![(0, 1), (0, 2), (0, 3), (1, 2), (1, 3), (2, 3)]);
    let none = LabeledGraph::from_coins(4, &vec![false; 6]).expect("six coins");
    assert_eq!(none.edges(), vec![]);
}

#[test]
fn from_coins_wants_one_coin_for_each_pair() {
    assert!(LabeledGraph::from_coins(4, &vec![true; 5]).is_none());
    assert!(LabeledGraph::from_coins(4, &vec![true; 7]).is_none());
    assert!(LabeledGraph::from_coins(4, &vec![]).is_none());
    assert!(LabeledGraph::from_coins(0, &vec![true]).is_none());
    assert!(LabeledGraph::from_coins(1, &vec![false]).is_none());
    assert!(LabeledGraph::from_coins(2, &vec![]).is_none());
}

#[test]
fn from_coins_makes_the_small_graphs() {
    assert_eq!(LabeledGraph::from_coins(0, &vec![]).map(|g| g.node_count()), Some(0));
    assert_eq!(LabeledGraph::from_coins(1, &vec![]).map(|g| g.edge_count()), Some(0));
    assert_eq!(LabeledGraph::from_coins(2, &vec![true]).map(|g| g.edges()), Some(vec![(0, 1)]));
    assert_eq!(LabeledGraph::from_coins(10, &vec![true; 45]).map(|g| g.edge_count()), Some(45));
}

#[test]
fn generate_random_keeps_the_edges_in_the_order_of_the_pairs() {
    for seed in 0..50u64 {
        let mut rng = StdRng::seed_from_u64(seed);
        let g = generate_random(&mut rng, 5, 10, 1, 2);
        let edges = g.edges();
        for pair in edges.windows(2) {
            assert!(pair[0] < pair[1]);
        }
        let n = g.node_count();
        let mut coins = Vec::new();
        for u in 0..n {
            for v in u + 1..n {
                coins.push(g.has_edge(u, v));
            }
        }
        assert_eq!(LabeledGraph::from_coins(n, &coins).map(|h| h.edges()), Some(edges));
    }
}
