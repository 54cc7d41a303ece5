use game_engine::engine::physics_engine::collision::collision_candidates::CollisionCandidates;
use game_engine::engine::physics_engine::collision::identity_collision_handler::IdentityCollisionSolver;
use game_engine::engine::physics_engine::narrowphase::naive::{
    collision_graph, BodyShape, CollisionPair, Naive, PairKind,
};

#[test]
fn pairs_follow_the_double_loop_and_put_circles_first() {
    let naive = Naive::new(IdentityCollisionSolver::new());
    let shapes = vec![BodyShape::Rectangle, BodyShape::Circle, BodyShape::Circle, BodyShape::Rectangle];
    let candidates = CollisionCandidates::new(vec![3, 0, 1]);
    let pairs = naive.collision_pairs(&candidates, &shapes);
    assert_eq!(pairs, vec![
        CollisionPair { body_i_idx: 3, body_j_idx: 0, kind: PairKind::RectRect, first: 0, second: 3 },
        CollisionPair { body_i_idx: 3, body_j_idx: 1, kind: PairKind::CircleRect, first: 1, second: 3 },
        CollisionPair { body_i_idx: 0, body_j_idx: 1, kind: PairKind::CircleRect, first: 1, second: 0 },
    ]);
}

#[test]
fn circles_go_to_the_circle_test() {
    let naive = Naive::new(IdentityCollisionSolver::new());
    let shapes = vec![BodyShape::Circle, BodyShape::Circle];
    let pairs = naive.collision_pairs(&CollisionCandidates::new(vec![1, 0]), &shapes);
    assert_eq!(pairs, vec![
        CollisionPair { body_i_idx: 1, body_j_idx: 0, kind: PairKind::CircleCircle, first: 0, second: 1 },
    ]);
}

#[test]
fn one_candidate_has_no_pairs() {
    let naive = Naive::new(IdentityCollisionSolver::new());
    let shapes = vec![BodyShape::Circle];
    assert!(naive.collision_pairs(&CollisionCandidates::new(vec![0]), &shapes).is_empty());
    assert!(naive.collision_pairs(&CollisionCandidates::new(vec![]), &shapes).is_empty());
}

#[test]
fn candidates_report_their_length() {
    assert_eq!(CollisionCandidates::new(vec![4, 2, 9]).len(), 3);
    assert_eq!(CollisionCandidates::new(vec![]).len(), 0);
}

#[test]
fn collision_graph_keeps_the_pairs_whose_test_found_a_collision() {
    let naive = Naive::new(IdentityCollisionSolver::new());
    let shapes = vec![BodyShape::Circle, BodyShape::Circle, BodyShape::Rectangle];
    let candidates = CollisionCandidates::new(vec![2, 0, 1]);
    let pairs = naive.collision_pairs(&candidates, &shapes);
    assert_eq!(pairs.len(), 3);
    let graph = collision_graph(&pairs, vec![Some("a"), None, Some("c")]).unwrap();
    let found: Vec<(usize, usize, &str)> =
        graph.collisions.iter().map(|n| (n.body_i_idx, n.body_j_idx, n.info)).collect();
    assert_eq!(found, vec![(2, 0, "a"), (0, 1, "c")]);
    assert!(collision_graph(&pairs, vec![None::<u8>, None, None]).is_none());
    assert!(collision_graph::<u8>(&Vec::new(), Vec::new()).is_none());
}

#[test]
fn fewer_than_two_candidates_give_no_pairs() {
    let naive = Naive::new(IdentityCollisionSolver::new());
    let shapes: Vec<BodyShape> = Vec::new();
    assert!(naive.collision_pairs(&CollisionCandidates::new(vec![7]), &shapes).is_empty());
    assert!(naive.collision_pairs(&CollisionCandidates::new(Vec::new()), &shapes).is_empty());
}
