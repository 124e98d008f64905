use rand::rngs::StdRng;
use rand::SeedableRng;
use zk_graph_iso::challenge::sample;
use zk_graph_iso::commitment::commit;
use zk_graph_iso::commitment::commit_with_nonce;
use zk_graph_iso::commitment::verify_open;
use zk_graph_iso::commitment::Opening;
use zk_graph_iso::error::ProtocolError;
use zk_graph_iso::graph::generate_random;
use zk_graph_iso::graph::is_isomorphic_under;
use zk_graph_iso::graph::relabel;
use zk_graph_iso::graph::LabeledGraph;
use zk_graph_iso::permutation::compose;
use zk_graph_iso::permutation::inverse;
use zk_graph_iso::permutation::random_permutation;
use zk_graph_iso::permutation::Permutation;
use zk_graph_iso::proving::Prover;
use zk_graph_iso::proving::ProverState;
use zk_graph_iso::response::Response;
use zk_graph_iso::session::ProtocolSession;
use zk_graph_iso::verifying::Verifier;
use zk_graph_iso::verifying::VerifierState;

fn graph(n: usize, pairs: Vec<(usize, usize)>) -> LabeledGraph {
    match LabeledGraph::new(n, &pairs) {
        Ok(g) => g,
        Err(e) => panic!("not a graph: {:?}", e),
    }
}

fn perm(images: Vec<usize>) -> Permutation {
    match Permutation::new(images) {
        Ok(p) => p,
        Err(e) => panic!("not a permutation: {:?}", e),
    }
}

fn triangle() -> LabeledGraph {
    graph(3, vec![(0, 1), (1, 2), (0, 2)])
}

fn path() -> LabeledGraph {
    graph(3, vec![(0, 1), (1, 2)])
}

fn new_prover(g1: &LabeledGraph, g2: &LabeledGraph, witness: Permutation) -> Prover {
    match Prover::new(g1.clone(), g2.clone(), witness) {
        Ok(p) => p,
        Err(e) => panic!("no prover: {:?}", e),
    }
}

fn new_verifier(g1: &LabeledGraph, g2: &LabeledGraph) -> Verifier {
    match Verifier::new(g1.clone(), g2.clone()) {
        Ok(v) => v,
        Err(e) => panic!("no verifier: {:?}", e),
    }
}

/// One round by hand, with everything that is random given.
fn round(
    g1: &LabeledGraph,
    g2: &LabeledGraph,
    witness: Permutation,
    sigma: Permutation,
    nonce: Vec<u8>,
    challenge: bool,
) -> Result<bool, ProtocolError> {
    let mut p = new_prover(g1, g2, witness);
    let mut v = new_verifier(g1, g2);
    let commitment = p.commit_with(sigma, nonce)?;
    let asked = v.challenge_with(commitment, challenge)?;
    let response = p.respond(asked)?;
    v.receive_response(&response)
}

#[test]
fn triangle_is_accepted_under_every_witness_and_both_challenges() {
    let all = [
        vec![0, 1, 2],
        vec![0, 2, 1],
        vec![1, 0, 2],
        vec![1, 2, 0],
        vec![2, 0, 1],
        vec![2, 1, 0],
    ];
    for witness in all.iter() {
        for sigma in all.iter() {
            for challenge in [false, true] {
                let decided = round(
                    &triangle(),
                    &triangle(),
                    perm(witness.clone()),
                    perm(sigma.clone()),
                    vec![7; 32],
                    challenge,
                );
                assert_eq!(decided, Ok(true));
                let session = ProtocolSession::new(&triangle(), &triangle(), perm(witness.clone()))
                    .ok()
                    .expect("sizes agree");
                assert_eq!(session.run_with(perm(sigma.clone()), vec![7; 32], challenge), Ok(true));
            }
        }
    }
}

#[test]
fn wrong_witness_is_rejected_on_the_second_challenge() {
    let g1 = path();
    let g2 = graph(3, vec![(0, 2), (1, 2)]);
    let identity = Permutation::identity(3);
    assert!(!is_isomorphic_under(&g1, &g2, &identity));
    for sigma in [vec![0, 1, 2], vec![2, 0, 1], vec![1, 0, 2]] {
        assert_eq!(
            round(&g1, &g2, identity.clone(), perm(sigma.clone()), vec![1; 32], true),
            Ok(false)
        );
        assert_eq!(
            round(&g1, &g2, identity.clone(), perm(sigma.clone()), vec![1; 32], false),
            Ok(true)
        );
        let session = ProtocolSession::new(&g1, &g2, identity.clone()).ok().expect("sizes agree");
        assert_eq!(session.run_with(perm(sigma), vec![1; 32], true), Ok(false));
    }
    // the right witness gets through
    assert_eq!(
        round(&g1, &g2, perm(vec![0, 2, 1]), perm(vec![2, 0, 1]), vec![1; 32], true),
        Ok(true)
    );
}

#[test]
fn different_node_counts_fail_before_any_commitment() {
    let g1 = graph(4, vec![(0, 1), (1, 2), (2, 3)]);
    let g2 = graph(5, vec![(0, 1), (1, 2), (2, 3)]);
    assert!(matches!(
        ProtocolSession::new(&g1, &g2, Permutation::identity(4)),
        Err(ProtocolError::SizeMismatch)
    ));
    assert!(matches!(
        ProtocolSession::new(&g1, &g2, Permutation::identity(5)),
        Err(ProtocolError::SizeMismatch)
    ));
    assert!(matches!(
        Prover::new(g1.clone(), g2.clone(), Permutation::identity(4)),
        Err(ProtocolError::SizeMismatch)
    ));
    assert!(matches!(Verifier::new(g1.clone(), g2.clone()), Err(ProtocolError::SizeMismatch)));
    assert!(matches!(Verifier::new(g2, g1), Err(ProtocolError::SizeMismatch)));
}

#[test]
fn witness_of_another_size_fails_before_any_commitment() {
    let g = triangle();
    assert!(matches!(
        Prover::new(g.clone(), g.clone(), Permutation::identity(2)),
        Err(ProtocolError::SizeMismatch)
    ));
    assert!(matches!(
        ProtocolSession::new(&g, &g, Permutation::identity(4)),
        Err(ProtocolError::SizeMismatch)
    ));
}

#[test]
fn sigma_of_another_size_is_turned_down() {
    let g = triangle();
    let mut p = new_prover(&g, &g, Permutation::identity(3));
    assert!(matches!(
        p.commit_with(Permutation::identity(4), vec![0; 32]),
        Err(ProtocolError::SizeMismatch)
    ));
    assert_eq!(p.state(), ProverState::Idle);
    assert!(p.commit_with(Permutation::identity(3), vec![0; 32]).is_ok());
    let session = ProtocolSession::new(&g, &g, Permutation::identity(3)).ok().expect("sizes agree");
    assert_eq!(
        session.run_with(Permutation::identity(2), vec![0; 32], false),
        Err(ProtocolError::SizeMismatch)
    );
}

#[test]
fn prover_goes_from_idle_to_committed_to_responded() {
    let g = triangle();
    let mut rng = StdRng::seed_from_u64(21);
    let mut p = new_prover(&g, &g, Permutation::identity(3));
    assert_eq!(p.state(), ProverState::Idle);
    assert!(p.commit(&mut rng).is_ok());
    assert_eq!(p.state(), ProverState::Committed);
    assert!(p.respond(true).is_ok());
    assert_eq!(p.state(), ProverState::Responded);
}

#[test]
fn prover_cannot_answer_before_it_committed() {
    let g = triangle();
    let mut p = new_prover(&g, &g, Permutation::identity(3));
    assert!(matches!(p.respond(false), Err(ProtocolError::ProtocolViolation)));
    assert_eq!(p.state(), ProverState::Idle);
}

#[test]
fn prover_cannot_answer_twice() {
    let g = triangle();
    let mut rng = StdRng::seed_from_u64(22);
    let mut p = new_prover(&g, &g, Permutation::identity(3));
    assert!(p.commit(&mut rng).is_ok());
    assert!(p.respond(false).is_ok());
    assert!(matches!(p.respond(false), Err(ProtocolError::ProtocolViolation)));
    assert!(matches!(p.respond(true), Err(ProtocolError::ProtocolViolation)));
    assert_eq!(p.state(), ProverState::Responded);
}

#[test]
fn prover_cannot_commit_twice() {
    let g = triangle();
    let mut rng = StdRng::seed_from_u64(23);
    let mut p = new_prover(&g, &g, Permutation::identity(3));
    assert!(p.commit(&mut rng).is_ok());
    assert!(matches!(p.commit(&mut rng), Err(ProtocolError::ProtocolViolation)));
    assert!(matches!(
        p.commit_with(Permutation::identity(3), vec![0; 32]),
        Err(ProtocolError::ProtocolViolation)
    ));
    assert_eq!(p.state(), ProverState::Committed);
    assert!(p.respond(false).is_ok());
    assert!(matches!(p.commit(&mut rng), Err(ProtocolError::ProtocolViolation)));
}

#[test]
fn prover_answers_with_sigma_or_with_the_derived_permutation() {
    let g1 = path();
    let witness = perm(vec![0, 2, 1]);
    let g2 = relabel(&g1, &witness).expect("sizes agree");
    let sigma = perm(vec![2, 0, 1]);

    let mut p = new_prover(&g1, &g2, witness.clone());
    let commitment = p.commit_with(sigma.clone(), vec![3; 32]).expect("idle");
    let response = p.respond(false).expect("committed");
    assert_eq!(response.permutation().to_vec(), vec![2, 0, 1]);
    // H = sigma(G1): {0,1} -> {2,0}, {1,2} -> {0,1}
    assert_eq!(response.opening().graph().edges(), vec![(0, 2), (0, 1)]);
    assert_eq!(response.opening().nonce().to_vec(), vec![3; 32]);
    assert!(verify_open(&commitment, response.opening()));

    let mut p = new_prover(&g1, &g2, witness.clone());
    let commitment = p.commit_with(sigma.clone(), vec![3; 32]).expect("idle");
    let response = p.respond(true).expect("committed");
    // tau[i] = sigma[inverse(witness)[i]]
    let tau = compose(&inverse(&witness), &sigma).expect("sizes agree");
    assert_eq!(tau.to_vec(), vec![2, 1, 0]);
    assert_eq!(response.permutation().to_vec(), vec![2, 1, 0]);
    assert!(verify_open(&commitment, response.opening()));
    assert!(is_isomorphic_under(&g2, response.opening().graph(), response.permutation()));
}

#[test]
fn verifier_goes_from_commitment_to_response_to_decision() {
    let g = triangle();
    let mut rng = StdRng::seed_from_u64(24);
    let mut p = new_prover(&g, &g, Permutation::identity(3));
    let mut v = new_verifier(&g, &g);
    assert_eq!(v.state(), VerifierState::AwaitingCommitment);
    assert_eq!(v.decision(), None);
    let commitment = p.commit(&mut rng).expect("idle");
    let challenge = v.receive_commitment(commitment, &mut rng).expect("awaiting");
    assert_eq!(v.state(), VerifierState::AwaitingResponse);
    assert_eq!(v.decision(), None);
    let response = p.respond(challenge).expect("committed");
    assert_eq!(v.receive_response(&response), Ok(true));
    assert_eq!(v.state(), VerifierState::Decided);
    assert_eq!(v.decision(), Some(true));
}

#[test]
fn verifier_cannot_decide_before_it_asked() {
    let g = triangle();
    let mut v = new_verifier(&g, &g);
    let (_, opening) = commit_with_nonce(&g, vec![0; 32]);
    let response = Response::new(opening, Permutation::identity(3));
    assert_eq!(v.receive_response(&response), Err(ProtocolError::ProtocolViolation));
    assert_eq!(v.state(), VerifierState::AwaitingCommitment);
}

#[test]
fn verifier_takes_one_commitment_only() {
    let g = triangle();
    let mut rng = StdRng::seed_from_u64(25);
    let mut v = new_verifier(&g, &g);
    let (c1, _) = commit(&g, &mut rng);
    let (c2, _) = commit(&g, &mut rng);
    let (c3, _) = commit(&g, &mut rng);
    assert_eq!(v.challenge_with(c1, true), Ok(true));
    assert_eq!(v.challenge_with(c2, false), Err(ProtocolError::ProtocolViolation));
    assert_eq!(v.receive_commitment(c3, &mut rng), Err(ProtocolError::ProtocolViolation));
    assert_eq!(v.state(), VerifierState::AwaitingResponse);
}

#[test]
fn verifier_decides_once() {
    let g = triangle();
    let mut v = new_verifier(&g, &g);
    let (commitment, opening) = commit_with_nonce(&g, vec![0; 32]);
    let response = Response::new(opening, Permutation::identity(3));
    assert_eq!(v.challenge_with(commitment.clone(), false), Ok(false));
    assert_eq!(v.receive_response(&response), Ok(true));
    assert_eq!(v.receive_response(&response), Err(ProtocolError::ProtocolViolation));
    assert_eq!(v.challenge_with(commitment, false), Err(ProtocolError::ProtocolViolation));
    assert_eq!(v.decision(), Some(true));
}

#[test]
fn verifier_rejects_an_opening_that_does_not_match() {
    let g = triangle();
    let mut v = new_verifier(&g, &g);
    let (commitment, _) = commit_with_nonce(&g, vec![0; 32]);
    assert_eq!(v.challenge_with(commitment, false), Ok(false));
    let forged = Response::new(Opening::new(g.clone(), vec![1; 32]), Permutation::identity(3));
    assert_eq!(v.receive_response(&forged), Err(ProtocolError::CommitmentMismatch));
    assert_eq!(v.state(), VerifierState::Decided);
    assert_eq!(v.decision(), Some(false));
}

#[test]
fn verifier_rejects_a_prover_that_changes_its_graph_after_the_challenge() {
    // commits to a copy of G1, sees the challenge for G2, opens a copy of G2
    let g1 = path();
    let g2 = triangle();
    let mut v = new_verifier(&g1, &g2);
    let (commitment, _) = commit_with_nonce(&g1, vec![4; 32]);
    assert_eq!(v.challenge_with(commitment, true), Ok(true));
    let switched = Response::new(Opening::new(g2.clone(), vec![4; 32]), Permutation::identity(3));
    assert_eq!(v.receive_response(&switched), Err(ProtocolError::CommitmentMismatch));
}

#[test]
fn verifier_rejects_a_permutation_that_is_no_isomorphism() {
    let g1 = path();
    let mut v = new_verifier(&g1, &g1);
    let h = relabel(&g1, &perm(vec![1, 0, 2])).expect("sizes agree");
    let (commitment, opening) = commit_with_nonce(&h, vec![4; 32]);
    assert_eq!(v.challenge_with(commitment, false), Ok(false));
    let response = Response::new(opening, Permutation::identity(3));
    assert_eq!(v.receive_response(&response), Ok(false));
    assert_eq!(v.decision(), Some(false));
}

#[test]
fn honest_rounds_are_always_accepted() {
    let mut setup = StdRng::seed_from_u64(31);
    let mut prover_rng = StdRng::seed_from_u64(32);
    let mut verifier_rng = StdRng::seed_from_u64(33);
    for trial in 0..1000 {
        let g1 = generate_random(&mut setup, 5, 10, 1, 2);
        let witness = random_permutation(&mut setup, g1.node_count());
        let g2 = relabel(&g1, &witness).expect("sizes agree");
        let session = ProtocolSession::new(&g1, &g2, witness.clone()).ok().expect("sizes agree");
        assert_eq!(session.run(&mut prover_rng, &mut verifier_rng), Ok(true));
        let challenge = trial % 2 == 0;
        let sigma = random_permutation(&mut prover_rng, g1.node_count());
        let session = ProtocolSession::new(&g1, &g2, witness).ok().expect("sizes agree");
        assert_eq!(session.run_with(sigma, vec![trial as u8; 32], challenge), Ok(true));
    }
}

#[test]
fn honest_rounds_are_accepted_on_both_challenges() {
    let mut setup = StdRng::seed_from_u64(34);
    for _ in 0..500 {
        let g1 = generate_random(&mut setup, 5, 10, 1, 2);
        let witness = random_permutation(&mut setup, g1.node_count());
        let g2 = relabel(&g1, &witness).expect("sizes agree");
        for challenge in [false, true] {
            let sigma = random_permutation(&mut setup, g1.node_count());
            assert_eq!(round(&g1, &g2, witness.clone(), sigma, vec![8; 32], challenge), Ok(true));
        }
    }
}

/// A prover without a witness: it bets on a challenge, commits to a copy of
/// the graph that this challenge asks for, and shows the permutation that
/// made the copy.
fn cheating_round(
    g1: &LabeledGraph,
    g2: &LabeledGraph,
    prover_rng: &mut StdRng,
    verifier_rng: &mut StdRng,
) -> bool {
    let bet = sample(prover_rng);
    let source = if bet { g2 } else { g1 };
    let sigma = random_permutation(prover_rng, source.node_count());
    let h = relabel(source, &sigma).expect("sizes agree");
    let (commitment, opening) = commit(&h, prover_rng);
    let mut v = new_verifier(g1, g2);
    let challenge = v.receive_commitment(commitment, verifier_rng).expect("awaiting");
    let decided = v.receive_response(&Response::new(opening, sigma));
    assert_eq!(decided, Ok(challenge == bet));
    decided == Ok(true)
}

#[test]
fn cheating_prover_gets_through_one_round_half_of_the_time_at_most() {
    let g1 = path();
    let g2 = triangle();
    let mut prover_rng = StdRng::seed_from_u64(41);
    let mut verifier_rng = StdRng::seed_from_u64(42);
    let trials = 4000;
    let mut accepted = 0;
    for _ in 0..trials {
        if cheating_round(&g1, &g2, &mut prover_rng, &mut verifier_rng) {
            accepted += 1;
        }
    }
    let rate = accepted as f64 / trials as f64;
    assert!(rate <= 0.5 + 0.05);
    assert!(rate >= 0.5 - 0.05);
}

#[test]
fn prover_with_an_unrelated_graph_is_never_accepted() {
    let g1 = path();
    let g2 = triangle();
    let unrelated = graph(3, vec![(0, 1)]);
    let mut rng = StdRng::seed_from_u64(43);
    for _ in 0..500 {
        let (commitment, opening) = commit(&unrelated, &mut rng);
        let mut v = new_verifier(&g1, &g2);
        v.receive_commitment(commitment, &mut rng).expect("awaiting");
        let shown = random_permutation(&mut rng, 3);
        assert_eq!(v.receive_response(&Response::new(opening, shown)), Ok(false));
    }
}

#[test]
fn cheating_prover_gets_through_k_rounds_with_chance_two_to_the_minus_k() {
    let g1 = path();
    let g2 = triangle();
    let mut prover_rng = StdRng::seed_from_u64(51);
    let mut verifier_rng = StdRng::seed_from_u64(52);
    let trials = 4000;
    let mut last = 1.0f64;
    for k in 1..=5u32 {
        let mut accepted = 0;
        for _ in 0..trials {
            let mut all = true;
            for _ in 0..k {
                // every round has its own commitment; the outcomes are joined
                all = cheating_round(&g1, &g2, &mut prover_rng, &mut verifier_rng) && all;
            }
            if all {
                accepted += 1;
            }
        }
        let rate = accepted as f64 / trials as f64;
        let bound = 0.5f64.powi(k as i32);
        assert!(rate <= bound + 0.03);
        assert!(rate >= bound - 0.03);
        assert!(rate < last);
        last = rate;
    }
}

#[test]
fn honest_prover_gets_through_k_rounds() {
    let mut setup = StdRng::seed_from_u64(61);
    let mut prover_rng = StdRng::seed_from_u64(62);
    let mut verifier_rng = StdRng::seed_from_u64(63);
    let g1 = generate_random(&mut setup, 5, 10, 1, 2);
    let witness = random_permutation(&mut setup, g1.node_count());
    let g2 = relabel(&g1, &witness).expect("sizes agree");
    let mut all = true;
    for _ in 0..20 {
        let session = ProtocolSession::new(&g1, &g2, witness.clone()).ok().expect("sizes agree");
        all = session.run(&mut prover_rng, &mut verifier_rng) == Ok(true) && all;
    }
    assert!(all);
}

#[test]
fn two_accepted_answers_to_one_commitment_give_an_isomorphism() {
    let g1 = path();
    let witness = perm(vec![0, 2, 1]);
    let g2 = relabel(&g1, &witness).expect("sizes agree");
    let sigma = perm(vec![1, 2, 0]);
    let mut first = new_prover(&g1, &g2, witness.clone());
    let mut second = new_prover(&g1, &g2, witness.clone());
    let c1 = first.commit_with(sigma.clone(), vec![6; 32]).expect("idle");
    let c2 = second.commit_with(sigma, vec![6; 32]).expect("idle");
    assert_eq!(c1.to_bytes(), c2.to_bytes());
    let on_false = first.respond(false).expect("committed");
    let on_true = second.respond(true).expect("committed");
    let found = compose(on_false.permutation(), &inverse(on_true.permutation()))
        .expect("sizes agree");
    assert!(is_isomorphic_under(&g1, &g2, &found));
    assert_eq!(found.to_vec(), witness.to_vec());
}
