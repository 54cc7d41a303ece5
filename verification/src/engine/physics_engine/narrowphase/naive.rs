use vstd::prelude::*;

use crate::engine::physics_engine::collision::collision_candidates::CollisionCandidates;
use crate::engine::physics_engine::collision::collision_graph::{CollisionGraph, CollisionGraphNode};

verus! {

/// The shape of a body, which decides how a pair of bodies is tested.
#[derive(Debug, Clone, Copy, PartialEq, Eq, Structural)]
pub enum BodyShape {
    Circle,
    Rectangle,
    Unknown,
}

/// Which collision test a pair of bodies takes.
#[derive(Debug, Clone, Copy, PartialEq, Eq, Structural)]
pub enum PairKind {
    CircleCircle,
    CircleRect,
    RectRect,
}

/// One pair of candidates to test: the candidates' indices in candidate
/// order, the test, and the bodies handed to the test in its order (for a
/// circle and a rectangle, the circle first).
#[derive(Debug, Clone, Copy, PartialEq, Eq, Structural)]
pub struct CollisionPair {
    pub body_i_idx: usize,
    pub body_j_idx: usize,
    pub kind: PairKind,
    pub first: usize,
    pub second: usize,
}

/// The naive narrow phase: tests every pair of candidates with the solver.
pub struct Naive<H> {
    pub solver: H,
}

impl<H> Naive<H> {
    pub fn new(solver: H) -> (r: Self)
        ensures
            r.solver == solver,
    {
        Self { solver }
    }
}

/// The test for bodies `idx_i` and `idx_j`: the shapes are read in index
/// order, lower index first, and a rectangle and a circle go to the
/// circle-rectangle test with the circle first.
pub open spec fn pair_of(shapes: Seq<BodyShape>, idx_i: usize, idx_j: usize) -> CollisionPair {
    let min_idx = if idx_i < idx_j { idx_i } else { idx_j };
    let max_idx = if idx_i < idx_j { idx_j } else { idx_i };
    let a = shapes[min_idx as int];
    let b = shapes[max_idx as int];
    if a == BodyShape::Circle && b == BodyShape::Circle {
        CollisionPair { body_i_idx: idx_i, body_j_idx: idx_j, kind: PairKind::CircleCircle, first: min_idx, second: max_idx }
    } else if a == BodyShape::Rectangle && b == BodyShape::Rectangle {
        CollisionPair { body_i_idx: idx_i, body_j_idx: idx_j, kind: PairKind::RectRect, first: min_idx, second: max_idx }
    } else if a == BodyShape::Rectangle {
        CollisionPair { body_i_idx: idx_i, body_j_idx: idx_j, kind: PairKind::CircleRect, first: max_idx, second: min_idx }
    } else {
        CollisionPair { body_i_idx: idx_i, body_j_idx: idx_j, kind: PairKind::CircleRect, first: min_idx, second: max_idx }
    }
}

/// The pairs of candidate `i` with candidates `i + 1` to `j - 1`.
pub open spec fn row_pairs(c: Seq<usize>, shapes: Seq<BodyShape>, i: int, j: int) -> Seq<CollisionPair>
    decreases j - i,
{
    if j <= i + 1 {
        Seq::empty()
    } else {
        row_pairs(c, shapes, i, j - 1).push(pair_of(shapes, c[i], c[j - 1]))
    }
}

/// The pairs of candidates `0` to `i - 1` with every later candidate, in the
/// order of a double loop.
pub open spec fn candidate_pairs(c: Seq<usize>, shapes: Seq<BodyShape>, i: int) -> Seq<CollisionPair>
    decreases i,
{
    if i <= 0 {
        Seq::empty()
    } else {
        candidate_pairs(c, shapes, i - 1) + row_pairs(c, shapes, i - 1, c.len() as int)
    }
}

/// The candidates can be tested: distinct bodies of known shape.
pub open spec fn pairs_testable(c: Seq<usize>, shapes: Seq<BodyShape>) -> bool {
    &&& forall|k: int| 0 <= k < c.len() ==> (#[trigger] c[k]) < shapes.len()
    &&& forall|k: int| 0 <= k < c.len() ==> shapes[(#[trigger] c[k]) as int] != BodyShape::Unknown
    &&& forall|k1: int, k2: int| 0 <= k1 < k2 < c.len() ==> #[trigger] c[k1] != #[trigger] c[k2]
}

impl<H> Naive<H> {
    /// Every pair of candidates, in the order in which the narrow phase tests
    /// them, with the test each pair takes.
    pub fn collision_pairs(&self, candidates: &CollisionCandidates, shapes: &Vec<BodyShape>) -> (r: Vec<
        CollisionPair,
    >)
        requires
            candidates.indices@.len() >= 2 ==> pairs_testable(candidates.indices@, shapes@),
        ensures
            r@ == candidate_pairs(candidates.indices@, shapes@, candidates.indices@.len() as int),
            forall|k: int| 0 <= k < r@.len() ==> dispatched(#[trigger] r@[k], shapes@),
            forall|p: int, q: int|
                0 <= p < q < candidates.indices@.len() ==> #[trigger] tests_pair(
                    r@,
                    candidates.indices@[p],
                    candidates.indices@[q],
                ),
    {
        let ghost c = candidates.indices@;
        let num_candidates = candidates.len();
        let mut pairs: Vec<CollisionPair> = Vec::new();
        if num_candidates < 2 {
            // No pair to test, whatever the single candidate is.
            assert(candidate_pairs(c, shapes@, 0) =~= Seq::<CollisionPair>::empty());
            assert(row_pairs(c, shapes@, 0, c.len() as int) =~= Seq::<CollisionPair>::empty());
            assert(candidate_pairs(c, shapes@, c.len() as int) =~= Seq::<CollisionPair>::empty());
            return pairs;
        }
        let mut i: usize = 0;
        while i < num_candidates
            invariant
                c == candidates.indices@,
                num_candidates == c.len(),
                pairs_testable(c, shapes@),
                i <= num_candidates,
                pairs@ == candidate_pairs(c, shapes@, i as int),
            decreases num_candidates - i,
        {
            let ghost row_start = pairs@;
            let mut j: usize = i + 1;
            while j < num_candidates
                invariant
                    c == candidates.indices@,
                    num_candidates == c.len(),
                    pairs_testable(c, shapes@),
                    i < num_candidates,
                    i + 1 <= j <= num_candidates,
                    row_start == candidate_pairs(c, shapes@, i as int),
                    pairs@ == row_start + row_pairs(c, shapes@, i as int, j as int),
                decreases num_candidates - j,
            {
                let idx_i = candidates.indices[i];
                let idx_j = candidates.indices[j];
                let (min_idx, max_idx) = if idx_i < idx_j {
                    (idx_i, idx_j)
                } else {
                    (idx_j, idx_i)
                };
                let a = shapes[min_idx];
                let b = shapes[max_idx];
                let pair = match (a, b) {
                    (BodyShape::Circle, BodyShape::Circle) => CollisionPair {
                        body_i_idx: idx_i,
                        body_j_idx: idx_j,
                        kind: PairKind::CircleCircle,
                        first: min_idx,
                        second: max_idx,
                    },
                    (BodyShape::Rectangle, BodyShape::Rectangle) => CollisionPair {
                        body_i_idx: idx_i,
                        body_j_idx: idx_j,
                        kind: PairKind::RectRect,
                        first: min_idx,
                        second: max_idx,
                    },
                    (BodyShape::Rectangle, _) => CollisionPair {
                        body_i_idx: idx_i,
                        body_j_idx: idx_j,
                        kind: PairKind::CircleRect,
                        first: max_idx,
                        second: min_idx,
                    },
                    (_, _) => CollisionPair {
                        body_i_idx: idx_i,
                        body_j_idx: idx_j,
                        kind: PairKind::CircleRect,
                        first: min_idx,
                        second: max_idx,
                    },
                };
                assert(pair == pair_of(shapes@, c[i as int], c[j as int]));
                pairs.push(pair);
                assert(pairs@ =~= row_start + row_pairs(c, shapes@, i as int, j + 1));
                j = j + 1;
            }
            assert(candidate_pairs(c, shapes@, i + 1) == candidate_pairs(c, shapes@, i as int)
                + row_pairs(c, shapes@, i as int, num_candidates as int));
            i = i + 1;
        }
        proof {
            lemma_collision_pairs(c, shapes@, c.len() as int);
        }
        pairs
    }
}

/// The collisions that the tests of the first `n` pairs found: for each pair
/// whose test reported `Some(info)`, the pair's bodies with `info`, in order.
pub open spec fn found_collisions<I>(pairs: Seq<CollisionPair>, results: Seq<Option<I>>, n: int) -> Seq<
    CollisionGraphNode<I>,
>
    decreases n,
{
    if n <= 0 {
        Seq::empty()
    } else {
        let prev = found_collisions(pairs, results, n - 1);
        match results[n - 1] {
            Some(info) => prev.push(
                CollisionGraphNode {
                    body_i_idx: pairs[n - 1].body_i_idx,
                    body_j_idx: pairs[n - 1].body_j_idx,
                    info,
                },
            ),
            None => prev,
        }
    }
}

/// The positions among the first `n` tests whose test reported a collision.
pub open spec fn report_positions<I>(results: Seq<Option<I>>, n: int) -> Seq<int>
    decreases n,
{
    if n <= 0 {
        Seq::empty()
    } else {
        let prev = report_positions(results, n - 1);
        if results[n - 1] is Some {
            prev.push(n - 1)
        } else {
            prev
        }
    }
}

/// `src` lists, in increasing order, exactly the positions of the tests that
/// reported a collision, and node `m` holds the bodies of pair `src[m]` with
/// what its test reported.
pub open spec fn nodes_match_reports<I>(
    pairs: Seq<CollisionPair>,
    results: Seq<Option<I>>,
    nodes: Seq<CollisionGraphNode<I>>,
    src: Seq<int>,
) -> bool {
    &&& src.len() == nodes.len()
    &&& forall|m: int|
        0 <= m < src.len() ==> {
            &&& 0 <= #[trigger] src[m] < results.len()
            &&& results[src[m]] == Some(nodes[m].info)
            &&& nodes[m].body_i_idx == pairs[src[m]].body_i_idx
            &&& nodes[m].body_j_idx == pairs[src[m]].body_j_idx
        }
    &&& forall|m1: int, m2: int| 0 <= m1 < m2 < src.len() ==> #[trigger] src[m1] < #[trigger] src[m2]
    &&& forall|k: int|
        0 <= k < results.len() && (#[trigger] results[k]) is Some ==> exists|m: int|
            0 <= m < src.len() && #[trigger] src[m] == k
}

/// The collision graph of one list of candidates, from the pairs that were
/// tested and each test's report (`results[k]` for `pairs[k]`): `None` where
/// no test found a collision, else the collisions found, in pair order.
pub fn collision_graph<I>(pairs: &Vec<CollisionPair>, results: Vec<Option<I>>) -> (r: Option<
    CollisionGraph<I>,
>)
    requires
        pairs@.len() == results@.len(),
    ensures
        r is None <==> forall|k: int| 0 <= k < results@.len() ==> (#[trigger] results@[k]) is None,
        r matches Some(g) ==> g.collisions@ == found_collisions(pairs@, results@, results@.len() as int),
        r matches Some(g) ==> nodes_match_reports(
            pairs@,
            results@,
            g.collisions@,
            report_positions(results@, results@.len() as int),
        ),
{
    let ghost orig = results@;
    let mut rest = results;
    let mut nodes: Vec<CollisionGraphNode<I>> = Vec::new();
    let n = pairs.len();
    let mut k: usize = 0;
    while k < n
        invariant
            n == pairs@.len(),
            orig.len() == n,
            k <= n,
            rest@ == orig.skip(k as int),
            nodes@ == found_collisions(pairs@, orig, k as int),
            nodes@.len() == 0 <==> forall|m: int| 0 <= m < k ==> (#[trigger] orig[m]) is None,
            nodes_match_reports(pairs@, orig.take(k as int), nodes@, report_positions(orig, k as int)),
        decreases n - k,
    {
        let res = rest.remove(0);
        assert(res == orig[k as int]);
        assert(rest@ =~= orig.skip(k + 1));
        let ghost before = orig.take(k as int);
        let ghost after = orig.take(k + 1);
        assert(after =~= before.push(orig[k as int]));
        match res {
            Some(info) => {
                nodes.push(
                    CollisionGraphNode {
                        body_i_idx: pairs[k].body_i_idx,
                        body_j_idx: pairs[k].body_j_idx,
                        info,
                    },
                );
                proof {
                    let old_src = report_positions(orig, k as int);
                    let src = report_positions(orig, k + 1);
                    assert(src == old_src.push(k as int));
                    assert forall|j: int| 0 <= j < after.len() && (#[trigger] after[j]) is Some implies exists|m: int|
                        0 <= m < src.len() && #[trigger] src[m] == j by {
                        if j < k {
                            assert(before[j] == after[j]);
                            let m = choose|m: int| 0 <= m < old_src.len() && #[trigger] old_src[m] == j;
                            assert(src[m] == j);
                        } else {
                            assert(src[old_src.len() as int] == j);
                        }
                    }
                    assert forall|m: int| 0 <= m < src.len() implies {
                        &&& 0 <= #[trigger] src[m] < after.len()
                        &&& after[src[m]] == Some(nodes@[m].info)
                        &&& nodes@[m].body_i_idx == pairs@[src[m]].body_i_idx
                        &&& nodes@[m].body_j_idx == pairs@[src[m]].body_j_idx
                    } by {
                        if m < old_src.len() {
                            assert(src[m] == old_src[m]);
                            assert(before[old_src[m]] == after[old_src[m]]);
                        }
                    }
                    assert forall|m1: int, m2: int| 0 <= m1 < m2 < src.len() implies #[trigger] src[m1]
                        < #[trigger] src[m2] by {
                        if m2 == old_src.len() {
                            assert(old_src[m1] < before.len());
                        }
                    }
                }
            },
            None => {
                proof {
                    let src = report_positions(orig, k + 1);
                    assert(src == report_positions(orig, k as int));
                    assert forall|j: int| 0 <= j < after.len() && (#[trigger] after[j]) is Some implies exists|m: int|
                        0 <= m < src.len() && #[trigger] src[m] == j by {
                        assert(j < k);
                        assert(before[j] == after[j]);
                    }
                    assert forall|m: int| 0 <= m < src.len() implies {
                        &&& 0 <= #[trigger] src[m] < after.len()
                        &&& after[src[m]] == Some(nodes@[m].info)
                        &&& nodes@[m].body_i_idx == pairs@[src[m]].body_i_idx
                        &&& nodes@[m].body_j_idx == pairs@[src[m]].body_j_idx
                    } by {
                        assert(before[src[m]] == after[src[m]]);
                    }
                }
            },
        }
        k = k + 1;
    }
    assert(orig.take(n as int) =~= orig);
    assert(nodes_match_reports(pairs@, orig, nodes@, report_positions(orig, n as int)));
    if nodes.len() == 0 {
        None
    } else {
        let graph = CollisionGraph { collisions: nodes };
        Some(graph)
    }
}

/// Some pair of the list is the pair of bodies `a` and `b`, in that order.
pub open spec fn tests_pair(pairs: Seq<CollisionPair>, a: usize, b: usize) -> bool {
    exists|k: int| 0 <= k < pairs.len() && (#[trigger] pairs[k]).body_i_idx == a && pairs[k].body_j_idx == b
}

/// A pair goes to the test of its shapes, with its two bodies, and the
/// circle-rectangle test gets the circle first.
pub open spec fn dispatched(p: CollisionPair, shapes: Seq<BodyShape>) -> bool {
    &&& ((p.first == p.body_i_idx && p.second == p.body_j_idx) || (p.first == p.body_j_idx
        && p.second == p.body_i_idx))
    &&& p.kind == PairKind::CircleCircle ==> shapes[p.first as int] == BodyShape::Circle
        && shapes[p.second as int] == BodyShape::Circle
    &&& p.kind == PairKind::RectRect ==> shapes[p.first as int] == BodyShape::Rectangle
        && shapes[p.second as int] == BodyShape::Rectangle
    &&& p.kind == PairKind::CircleRect ==> shapes[p.first as int] == BodyShape::Circle
        && shapes[p.second as int] == BodyShape::Rectangle
}

proof fn lemma_row_pairs(c: Seq<usize>, shapes: Seq<BodyShape>, i: int, j: int)
    requires
        pairs_testable(c, shapes),
        0 <= i < j <= c.len(),
    ensures
        row_pairs(c, shapes, i, j).len() == j - i - 1,
        forall|k: int|
            0 <= k < j - i - 1 ==> {
                &&& (#[trigger] row_pairs(c, shapes, i, j)[k]).body_i_idx == c[i]
                &&& row_pairs(c, shapes, i, j)[k].body_j_idx == c[i + 1 + k]
                &&& dispatched(row_pairs(c, shapes, i, j)[k], shapes)
            },
    decreases j - i,
{
    if j > i + 1 {
        lemma_row_pairs(c, shapes, i, j - 1);
        assert(c[i] != c[j - 1]);
        assert(c[i] < shapes.len() && c[j - 1] < shapes.len());
        assert(shapes[c[i] as int] != BodyShape::Unknown);
        assert(shapes[c[j - 1] as int] != BodyShape::Unknown);
    }
}

/// Every pair of distinct candidates is tested, as the pair of the earlier
/// and the later candidate, and each test receives the bodies its shapes ask
/// for, the circle first when a circle meets a rectangle.
pub proof fn lemma_collision_pairs(c: Seq<usize>, shapes: Seq<BodyShape>, i: int)
    requires
        pairs_testable(c, shapes),
        0 <= i <= c.len(),
    ensures
        forall|k: int|
            0 <= k < candidate_pairs(c, shapes, i).len() ==> dispatched(
                #[trigger] candidate_pairs(c, shapes, i)[k],
                shapes,
            ),
        forall|p: int, q: int|
            0 <= p < q < c.len() && p < i ==> #[trigger] tests_pair(
                candidate_pairs(c, shapes, i),
                c[p],
                c[q],
            ),
    decreases i,
{
    if i > 0 {
        lemma_collision_pairs(c, shapes, i - 1);
        lemma_row_pairs(c, shapes, i - 1, c.len() as int);
        let prev = candidate_pairs(c, shapes, i - 1);
        let row = row_pairs(c, shapes, i - 1, c.len() as int);
        let all = candidate_pairs(c, shapes, i);
        assert(all == prev + row);
        assert forall|k: int| 0 <= k < all.len() implies dispatched(#[trigger] all[k], shapes) by {
            if k < prev.len() {
                assert(all[k] == prev[k]);
            } else {
                assert(all[k] == row[k - prev.len()]);
            }
        }
        assert forall|p: int, q: int| 0 <= p < q < c.len() && p < i implies #[trigger] tests_pair(
            all,
            c[p],
            c[q],
        ) by {
            if p < i - 1 {
                assert(tests_pair(prev, c[p], c[q]));
                let k = choose|k: int| 0 <= k < prev.len() && (#[trigger] prev[k]).body_i_idx == c[p] && prev[k].body_j_idx == c[q];
                assert(all[k] == prev[k]);
            } else {
                let k = q - p - 1;
                assert(row[k].body_i_idx == c[p]);
                assert(all[prev.len() + k] == row[k]);
            }
        }
    }
}

} // verus!
