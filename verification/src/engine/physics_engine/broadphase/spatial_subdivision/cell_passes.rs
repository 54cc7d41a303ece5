use vstd::prelude::*;

use crate::engine::physics_engine::collision::collision_candidates::CollisionCandidates;

use super::cell_id::CellId;
use super::cell_runs::{covers, equal_range, is_run, lemma_run_entries, run_entries, scannable};
use super::cell_sort::{
    cell_sort_key, lemma_sorted_order, lists_position, pair_order, sorted_cells, sorted_order,
};
use super::object_id::ObjectId;
use super::spatial_subdivision::{
    cells_name_objects, home_index, pass_indices, lemma_skip_is_symmetric, lemma_skip_needs_a_shared_home_class, parity_index, skips_pair,
    spec_hash,
};

verus! {

/// The cells of all objects, in the order of the objects.
pub open spec fn flat_cells(nested: Seq<Vec<CellId>>) -> Seq<CellId> {
    nested.map_values(|v: Vec<CellId>| v@).flatten()
}

/// The grouping keys of a sequence of cells.
pub open spec fn owned_cell_keys(s: Seq<CellId>) -> Seq<int> {
    s.map_values(|c: CellId| spec_hash(c.cell_id))
}

/// The control bits of the object that a cell belongs to.
pub open spec fn object_bits(objs: Seq<ObjectId>, c: CellId) -> u8 {
    objs[c.object_id as int].control_bits
}

/// The pass number (1 to 4) of a cell: one more than its parity index.
pub open spec fn cell_pass(c: (u32, u32, u32)) -> u8 {
    (parity_index(c) + 1) as u8
}

/// The pass (1 to 4) in which a run of cells is tested: the pass of the
/// parity class of its first cell.
pub open spec fn entry_pass(s: Seq<CellId>, e: (int, int)) -> u8 {
    cell_pass(s[e.0].cell_id)
}

/// Cells `i < j` of the run `e` hold a pair of objects that is tested in pass
/// `t` (numbered 1 to 4): the skip rule does not leave it to the pass of a
/// shared home class (see `skips_pair`).
pub open spec fn tested_pair(
    s: Seq<CellId>,
    objs: Seq<ObjectId>,
    e: (int, int),
    t: u8,
    i: int,
    j: int,
) -> bool {
    &&& e.0 <= i < j < e.0 + e.1
    &&& !skips_pair(t, object_bits(objs, s[i]), object_bits(objs, s[j]))
}

/// The objects of the run `e` that take part in a pair tested in pass `t`.
pub open spec fn run_collisions(s: Seq<CellId>, objs: Seq<ObjectId>, e: (int, int), t: u8) -> Set<
    usize,
> {
    Set::new(
        |o: usize|
            exists|i: int, j: int|
                #[trigger] tested_pair(s, objs, e, t, i, j) && (o == s[i].object_id || o
                    == s[j].object_id),
    )
}

/// The objects of the pairs of run `e` tested in pass `t` that come before
/// the pair `(ic, jc)` in the order of the scan.
pub open spec fn partial_collisions(
    s: Seq<CellId>,
    objs: Seq<ObjectId>,
    e: (int, int),
    t: u8,
    ic: int,
    jc: int,
) -> Set<usize> {
    Set::new(
        |o: usize|
            exists|i: int, j: int|
                #[trigger] tested_pair(s, objs, e, t, i, j) && (i < ic || (i == ic && j < jc)) && (o
                    == s[i].object_id || o == s[j].object_id),
    )
}

/// The collision sets of pass `t` from the first `n` runs: one set for each
/// run of more than one cell whose pass is `t` and that has a tested pair.
pub open spec fn pass_lists(
    s: Seq<CellId>,
    objs: Seq<ObjectId>,
    entries: Seq<(int, int)>,
    t: u8,
    n: nat,
) -> Seq<Set<usize>>
    decreases n,
{
    if n == 0 {
        Seq::empty()
    } else {
        let prev = pass_lists(s, objs, entries, t, (n - 1) as nat);
        let e = entries[n - 1];
        if e.1 > 1 && entry_pass(s, e) == t && !run_collisions(s, objs, e, t).is_empty() {
            prev.push(run_collisions(s, objs, e, t))
        } else {
            prev
        }
    }
}

/// The candidate lists hold, in order and each without repetition, the
/// objects of the given sets.
pub open spec fn candidates_match(v: Seq<CollisionCandidates>, sets: Seq<Set<usize>>) -> bool {
    &&& v.len() == sets.len()
    &&& forall|k: int|
        0 <= k < v.len() ==> {
            &&& (#[trigger] v[k]).indices@.no_duplicates()
            &&& v[k].indices@.to_set() == sets[k]
        }
}

/// The collision sets of pass `t` for the given cells: sort the cells, scan
/// them into runs of equal key, and keep the sets of the runs of pass `t`.
pub open spec fn collision_passes(flat: Seq<CellId>, objs: Seq<ObjectId>, t: u8) -> Seq<Set<usize>> {
    let s = sorted_cells(flat);
    let entries = run_entries(owned_cell_keys(s));
    pass_lists(s, objs, entries, t, entries.len())
}


/// The run whose collision set is kept at each place of `pass_lists`.
pub open spec fn pass_sources(
    s: Seq<CellId>,
    objs: Seq<ObjectId>,
    entries: Seq<(int, int)>,
    t: u8,
    n: nat,
) -> Seq<int>
    decreases n,
{
    if n == 0 {
        Seq::empty()
    } else {
        let prev = pass_sources(s, objs, entries, t, (n - 1) as nat);
        let e = entries[n - 1];
        if e.1 > 1 && entry_pass(s, e) == t && !run_collisions(s, objs, e, t).is_empty() {
            prev.push(n - 1)
        } else {
            prev
        }
    }
}

/// The run at entry `j` is kept in pass `t`.
pub open spec fn kept_run(s: Seq<CellId>, objs: Seq<ObjectId>, entries: Seq<(int, int)>, t: u8, j: int) -> bool {
    let e = entries[j];
    e.1 > 1 && entry_pass(s, e) == t && !run_collisions(s, objs, e, t).is_empty()
}

proof fn lemma_pass_sources(
    s: Seq<CellId>,
    objs: Seq<ObjectId>,
    entries: Seq<(int, int)>,
    t: u8,
    n: nat,
)
    requires
        n <= entries.len(),
    ensures
        pass_sources(s, objs, entries, t, n).len() == pass_lists(s, objs, entries, t, n).len(),
        forall|k: int|
            0 <= k < pass_sources(s, objs, entries, t, n).len() ==> {
                let j = #[trigger] pass_sources(s, objs, entries, t, n)[k];
                &&& 0 <= j < n
                &&& kept_run(s, objs, entries, t, j)
                &&& pass_lists(s, objs, entries, t, n)[k] == run_collisions(s, objs, entries[j], t)
            },
        forall|k1: int, k2: int|
            0 <= k1 < k2 < pass_sources(s, objs, entries, t, n).len() ==> #[trigger] pass_sources(
                s,
                objs,
                entries,
                t,
                n,
            )[k1] < #[trigger] pass_sources(s, objs, entries, t, n)[k2],
        forall|j: int|
            0 <= j < n && #[trigger] kept_run(s, objs, entries, t, j) ==> exists|k: int|
                0 <= k < pass_sources(s, objs, entries, t, n).len() && pass_sources(
                    s,
                    objs,
                    entries,
                    t,
                    n,
                )[k] == j,
    decreases n,
{
    if n > 0 {
        lemma_pass_sources(s, objs, entries, t, (n - 1) as nat);
        let prev_src = pass_sources(s, objs, entries, t, (n - 1) as nat);
        let src = pass_sources(s, objs, entries, t, n);
        assert forall|j: int|
            0 <= j < n && #[trigger] kept_run(s, objs, entries, t, j) implies exists|k: int|
            0 <= k < src.len() && src[k] == j by {
            if j < n - 1 {
                let k = choose|k: int| 0 <= k < prev_src.len() && prev_src[k] == j;
                assert(src[k] == j);
            } else {
                assert(src[src.len() - 1] == j);
            }
        }
    }
}

/// A cell lies on the grid whose cells the key tells apart: x and y below
/// 1000 and z equal to 0.
pub open spec fn keyed_cell(c: (u32, u32, u32)) -> bool {
    c.0 < 1000 && c.1 < 1000 && c.2 == 0
}

proof fn lemma_hash_injective(a: (u32, u32, u32), b: (u32, u32, u32))
    requires
        keyed_cell(a),
        keyed_cell(b),
        spec_hash(a) == spec_hash(b),
    ensures
        a == b,
{
    assert(a.0 == b.0 && a.1 == b.1) by (nonlinear_arith)
        requires
            a.0 < 1000,
            a.1 < 1000,
            b.0 < 1000,
            b.1 < 1000,
            a.0 + a.1 * 1000 == b.0 + b.1 * 1000,
    ;
}

/// The key tells apart the cells present: cells of equal key are the same
/// grid cell.
pub open spec fn keys_distinguish_cells(flat: Seq<CellId>) -> bool {
    forall|a: int, b: int|
        0 <= a < flat.len() && 0 <= b < flat.len() && spec_hash((#[trigger] flat[a]).cell_id)
            == spec_hash((#[trigger] flat[b]).cell_id) ==> flat[a].cell_id == flat[b].cell_id
}

/// On the grid of cells with x and y below 1000 and z equal to 0 the key
/// tells every two cells apart.
pub proof fn lemma_keyed_cells_are_distinguished(flat: Seq<CellId>)
    requires
        forall|k: int| 0 <= k < flat.len() ==> keyed_cell((#[trigger] flat[k]).cell_id),
    ensures
        keys_distinguish_cells(flat),
{
    assert forall|a: int, b: int|
        0 <= a < flat.len() && 0 <= b < flat.len() && spec_hash((#[trigger] flat[a]).cell_id)
            == spec_hash((#[trigger] flat[b]).cell_id) implies flat[a].cell_id == flat[b].cell_id by {
        lemma_hash_injective(flat[a].cell_id, flat[b].cell_id);
    }
}

/// The preconditions of the broad phase on the cells of all objects.
pub open spec fn cells_ready(flat: Seq<CellId>, objs: Seq<ObjectId>) -> bool {
    &&& flat.len() <= u32::MAX
    &&& forall|k: int| 0 <= k < flat.len() ==> spec_hash((#[trigger] flat[k]).cell_id) <= u32::MAX
    &&& scannable(owned_cell_keys(flat))
    &&& cells_name_objects(flat, objs)
}

/// The sorted cells are the input cells rearranged, in ascending key order.
proof fn lemma_sorted_cells(flat: Seq<CellId>, objs: Seq<ObjectId>)
    requires
        cells_ready(flat, objs),
    ensures
        sorted_cells(flat).len() == flat.len(),
        forall|k: int|
            0 <= k < flat.len() ==> #[trigger] sorted_cells(flat)[k] == flat[sorted_order(
                flat,
            )[k].1 as int],
        forall|k1: int, k2: int|
            0 <= k1 <= k2 < flat.len() ==> spec_hash((#[trigger] sorted_cells(flat)[k1]).cell_id)
                <= spec_hash((#[trigger] sorted_cells(flat)[k2]).cell_id),
        scannable(owned_cell_keys(sorted_cells(flat))),
        cells_name_objects(sorted_cells(flat), objs),
{
    assert forall|k: int| 0 <= k < flat.len() implies 0 <= #[trigger] cell_sort_key(flat[k])
        <= u64::MAX by {
        assert(spec_hash(flat[k].cell_id) <= u32::MAX);
    }
    lemma_sorted_order(flat);
    let so = sorted_order(flat);
    let sc = sorted_cells(flat);
    assert forall|k1: int, k2: int|
        0 <= k1 <= k2 < flat.len() implies spec_hash((#[trigger] sc[k1]).cell_id) <= spec_hash(
        (#[trigger] sc[k2]).cell_id,
    ) by {
        if k1 < k2 {
            assert(pair_order()(so[k1], so[k2]));
            let a = flat[so[k1].1 as int];
            let b = flat[so[k2].1 as int];
            assert(0 <= cell_sort_key(a) <= u64::MAX);
            assert(0 <= cell_sort_key(b) <= u64::MAX);
        }
    }
    if flat.len() == 1 {
        assert(so[0].1 == 0) by {
            assert(lists_position(so, 0));
        }
    }
    assert forall|k: int| 0 <= k < sc.len() implies {
        &&& (#[trigger] sc[k]).object_id < objs.len()
        &&& home_index(objs[sc[k].object_id as int].control_bits) < 4
    } by {
        assert(sc[k] == flat[so[k].1 as int]);
    }
}

/// Every candidate list of the broad phase is non-empty and names only
/// objects of the list of objects.
pub proof fn lemma_passes_nonempty_and_in_range(flat: Seq<CellId>, objs: Seq<ObjectId>, t: u8)
    requires
        cells_ready(flat, objs),
    ensures
        forall|k: int|
            0 <= k < collision_passes(flat, objs, t).len() ==> {
                &&& !(#[trigger] collision_passes(flat, objs, t)[k]).is_empty()
                &&& forall|o: usize| collision_passes(flat, objs, t)[k].contains(o) ==> o < objs.len()
            },
{
    lemma_sorted_cells(flat, objs);
    let s = sorted_cells(flat);
    let entries = run_entries(owned_cell_keys(s));
    lemma_pass_sources(s, objs, entries, t, entries.len());
    let src = pass_sources(s, objs, entries, t, entries.len());
    assert forall|k: int| 0 <= k < collision_passes(flat, objs, t).len() implies {
        &&& !(#[trigger] collision_passes(flat, objs, t)[k]).is_empty()
        &&& forall|o: usize| collision_passes(flat, objs, t)[k].contains(o) ==> o < objs.len()
    } by {
        let j = src[k];
        assert(kept_run(s, objs, entries, t, j));
        assert forall|o: usize| collision_passes(flat, objs, t)[k].contains(o) implies o < objs.len() by {
            let (i1, j1) = choose|i1: int, j1: int|
                #[trigger] tested_pair(s, objs, entries[j], t, i1, j1) && (o == s[i1].object_id || o
                    == s[j1].object_id);
            lemma_run_entries(owned_cell_keys(s));
            assert(is_run(owned_cell_keys(s), entries[j]));
            assert(s[i1].object_id < objs.len());
            assert(s[j1].object_id < objs.len());
        }
    }
}

/// Distinct cells of one object lie in distinct parity classes, as those of
/// `create_cell_object` do.
pub open spec fn objects_span_distinct_classes(flat: Seq<CellId>) -> bool {
    forall|a: int, b: int|
        0 <= a < flat.len() && 0 <= b < flat.len() && a != b && (#[trigger] flat[a]).object_id == (
        #[trigger] flat[b]).object_id ==> parity_index(flat[a].cell_id) != parity_index(
            flat[b].cell_id,
        )
}

/// Sorting keeps the key telling the cells apart.
proof fn lemma_sorted_keys_distinguish(flat: Seq<CellId>, objs: Seq<ObjectId>)
    requires
        cells_ready(flat, objs),
        keys_distinguish_cells(flat),
    ensures
        keys_distinguish_cells(sorted_cells(flat)),
{
    lemma_sorted_cells(flat, objs);
    lemma_sorted_order(flat);
    let s = sorted_cells(flat);
    let so = sorted_order(flat);
    assert forall|a: int, b: int|
        0 <= a < s.len() && 0 <= b < s.len() && spec_hash((#[trigger] s[a]).cell_id) == spec_hash(
            (#[trigger] s[b]).cell_id,
        ) implies s[a].cell_id == s[b].cell_id by {
        assert(s[a] == flat[so[a].1 as int]);
        assert(s[b] == flat[so[b].1 as int]);
    }
}

/// A cell of a run lies in the same grid cell as the run's first cell, so its
/// parity class names the run's pass.
proof fn lemma_run_cell_pass(s: Seq<CellId>, e: (int, int), i: int)
    requires
        is_run(owned_cell_keys(s), e),
        e.0 <= i < e.0 + e.1,
        keys_distinguish_cells(s),
    ensures
        s[i].cell_id == s[e.0].cell_id,
        cell_pass(s[i].cell_id) == entry_pass(s, e),
{
    let h = owned_cell_keys(s);
    assert(h[i] == h[e.0]);
    assert(spec_hash(s[i].cell_id) == spec_hash(s[e.0].cell_id));
}

/// In one pass no object appears in two candidate lists: the cells of one
/// object lie in distinct parity classes, and all grid cells of one pass share
/// a parity class, so an object reaches at most one grid cell of each pass.
#[verifier::rlimit(40)]
pub proof fn lemma_object_in_at_most_one_list_per_pass(
    flat: Seq<CellId>,
    objs: Seq<ObjectId>,
    t: u8,
    k1: int,
    k2: int,
    o: usize,
)
    requires
        cells_ready(flat, objs),
        keys_distinguish_cells(flat),
        objects_span_distinct_classes(flat),
        0 <= k1 < collision_passes(flat, objs, t).len(),
        0 <= k2 < collision_passes(flat, objs, t).len(),
        k1 != k2,
    ensures
        !(collision_passes(flat, objs, t)[k1].contains(o) && collision_passes(flat, objs, t)[k2].contains(o)),
{
    lemma_sorted_cells(flat, objs);
    lemma_sorted_order(flat);
    let s = sorted_cells(flat);
    let so = sorted_order(flat);
    let h = owned_cell_keys(s);
    let entries = run_entries(h);
    lemma_run_entries(h);
    lemma_pass_sources(s, objs, entries, t, entries.len());
    let src = pass_sources(s, objs, entries, t, entries.len());
    lemma_sorted_keys_distinguish(flat, objs);
    if collision_passes(flat, objs, t)[k1].contains(o) && collision_passes(flat, objs, t)[k2].contains(o) {
        let (ka, kb) = if k1 < k2 { (k1, k2) } else { (k2, k1) };
        let ja = src[ka];
        let jb = src[kb];
        assert(ja < jb);
        let ea = entries[ja];
        let eb = entries[jb];
        assert(kept_run(s, objs, entries, t, ja));
        assert(kept_run(s, objs, entries, t, jb));
        assert(ea.0 + ea.1 <= eb.0);
        let (ia1, ia2) = choose|i1: int, j1: int|
            #[trigger] tested_pair(s, objs, ea, t, i1, j1) && (o == s[i1].object_id || o == s[j1].object_id);
        let ia = if o == s[ia1].object_id { ia1 } else { ia2 };
        let (ib1, ib2) = choose|i1: int, j1: int|
            #[trigger] tested_pair(s, objs, eb, t, i1, j1) && (o == s[i1].object_id || o == s[j1].object_id);
        let ib = if o == s[ib1].object_id { ib1 } else { ib2 };
        assert(is_run(h, ea));
        assert(is_run(h, eb));
        lemma_run_cell_pass(s, ea, ia);
        lemma_run_cell_pass(s, eb, ib);
        let pa = so[ia].1 as int;
        let pb = so[ib].1 as int;
        assert(s[ia] == flat[pa]);
        assert(s[ib] == flat[pb]);
        assert(pa != pb);
        assert(flat[pa].object_id == flat[pb].object_id);
    }
}

/// Every candidate list of a pass names at least two distinct objects: the
/// two cells of a tested pair lie in one grid cell, so they belong to distinct
/// objects.
pub proof fn lemma_pass_lists_hold_two_objects(flat: Seq<CellId>, objs: Seq<ObjectId>, t: u8, k: int)
    requires
        cells_ready(flat, objs),
        keys_distinguish_cells(flat),
        objects_span_distinct_classes(flat),
        0 <= k < collision_passes(flat, objs, t).len(),
    ensures
        exists|o1: usize, o2: usize|
            o1 != o2 && collision_passes(flat, objs, t)[k].contains(o1) && collision_passes(
                flat,
                objs,
                t,
            )[k].contains(o2),
{
    lemma_sorted_cells(flat, objs);
    lemma_sorted_order(flat);
    let s = sorted_cells(flat);
    let so = sorted_order(flat);
    let h = owned_cell_keys(s);
    let entries = run_entries(h);
    lemma_run_entries(h);
    lemma_pass_sources(s, objs, entries, t, entries.len());
    let src = pass_sources(s, objs, entries, t, entries.len());
    lemma_sorted_keys_distinguish(flat, objs);
    let j = src[k];
    let e = entries[j];
    assert(kept_run(s, objs, entries, t, j));
    let set = run_collisions(s, objs, e, t);
    assert(collision_passes(flat, objs, t)[k] == set);
    let o = set.choose();
    assert(set.contains(o));
    let (i1, j1) = choose|i1: int, j1: int|
        #[trigger] tested_pair(s, objs, e, t, i1, j1) && (o == s[i1].object_id || o == s[j1].object_id);
    assert(is_run(h, e));
    lemma_run_cell_pass(s, e, i1);
    lemma_run_cell_pass(s, e, j1);
    let p1 = so[i1].1 as int;
    let p2 = so[j1].1 as int;
    assert(s[i1] == flat[p1]);
    assert(s[j1] == flat[p2]);
    assert(p1 != p2);
    assert(s[i1].object_id != s[j1].object_id);
    assert(set.contains(s[i1].object_id));
    assert(set.contains(s[j1].object_id));
}

/// No pair is missed: two cells of distinct objects in the same grid cell,
/// whose pair is not left to an earlier pass, put both objects into one
/// candidate list of the pass of that grid cell's parity class.
pub proof fn lemma_shared_cell_pairs_are_candidates(
    flat: Seq<CellId>,
    objs: Seq<ObjectId>,
    a: int,
    b: int,
)
    requires
        cells_ready(flat, objs),
        keys_distinguish_cells(flat),
        0 <= a < flat.len(),
        0 <= b < flat.len(),
        a != b,
        flat[a].cell_id == flat[b].cell_id,
        !skips_pair(
            cell_pass(flat[a].cell_id),
            object_bits(objs, flat[a]),
            object_bits(objs, flat[b]),
        ),
    ensures
        exists|k: int|
            0 <= k < collision_passes(flat, objs, cell_pass(flat[a].cell_id)).len()
                && (#[trigger] collision_passes(flat, objs, cell_pass(flat[a].cell_id))[k]).contains(
                flat[a].object_id,
            ) && collision_passes(flat, objs, cell_pass(flat[a].cell_id))[k].contains(
                flat[b].object_id,
            ),
{
    let t = cell_pass(flat[a].cell_id);
    lemma_sorted_cells(flat, objs);
    lemma_sorted_order(flat);
    let s = sorted_cells(flat);
    let so = sorted_order(flat);
    let h = owned_cell_keys(s);
    let entries = run_entries(h);
    lemma_run_entries(h);
    lemma_pass_sources(s, objs, entries, t, entries.len());
    let src = pass_sources(s, objs, entries, t, entries.len());
    lemma_sorted_keys_distinguish(flat, objs);
    assert(lists_position(so, a));
    assert(lists_position(so, b));
    let ka = choose|k: int| 0 <= k < so.len() && (#[trigger] so[k]).1 == a;
    let kb = choose|k: int| 0 <= k < so.len() && (#[trigger] so[k]).1 == b;
    assert(s[ka] == flat[a]);
    assert(s[kb] == flat[b]);
    let p = if ka < kb { ka } else { kb };
    let q = if ka < kb { kb } else { ka };
    assert(equal_range(h, p, q)) by {
        assert forall|m: int| p <= m <= q implies #[trigger] h[m] == h[p] by {
            assert(spec_hash(s[p].cell_id) <= spec_hash(s[m].cell_id));
            assert(spec_hash(s[m].cell_id) <= spec_hash(s[q].cell_id));
        }
    }
    let j = choose|j: int| 0 <= j < entries.len() && entries[j].1 > 1 && #[trigger] covers(entries[j], p, q);
    let e = entries[j];
    assert(is_run(h, e));
    lemma_run_cell_pass(s, e, p);
    assert(entry_pass(s, e) == t);
    lemma_skip_is_symmetric(t, object_bits(objs, flat[a]), object_bits(objs, flat[b]));
    assert(tested_pair(s, objs, e, t, p, q));
    assert(run_collisions(s, objs, e, t).contains(s[p].object_id));
    assert(run_collisions(s, objs, e, t).contains(s[q].object_id));
    assert(kept_run(s, objs, entries, t, j));
    let k = choose|k: int| 0 <= k < src.len() && src[k] == j;
    assert(collision_passes(flat, objs, t)[k] == run_collisions(s, objs, e, t));
}

/// Two objects that share a grid cell appear together in a candidate list of
/// that cell's pass unless some class whose pass comes earlier is the home
/// class of one of them and is occupied by both (its bit is set in the
/// intersection of their control bits).
pub proof fn lemma_shared_cell_pairs_tested_unless_home_class_shared(
    flat: Seq<CellId>,
    objs: Seq<ObjectId>,
    a: int,
    b: int,
)
    requires
        cells_ready(flat, objs),
        keys_distinguish_cells(flat),
        0 <= a < flat.len(),
        0 <= b < flat.len(),
        a != b,
        flat[a].cell_id == flat[b].cell_id,
        forall|h: u8|
            h < 4 && h + 1 < cell_pass(flat[a].cell_id) && (h == object_bits(objs, flat[a]) / 16
                || h == object_bits(objs, flat[b]) / 16) ==> #[trigger] (((object_bits(
                objs,
                flat[a],
            ) & object_bits(objs, flat[b])) >> h) & 1u8) != 1u8,
    ensures
        exists|k: int|
            0 <= k < collision_passes(flat, objs, cell_pass(flat[a].cell_id)).len()
                && (#[trigger] collision_passes(flat, objs, cell_pass(flat[a].cell_id))[k]).contains(
                flat[a].object_id,
            ) && collision_passes(flat, objs, cell_pass(flat[a].cell_id))[k].contains(
                flat[b].object_id,
            ),
{
    let ba = object_bits(objs, flat[a]);
    let bb = object_bits(objs, flat[b]);
    assert(home_index(ba) < 4 && home_index(bb) < 4);
    lemma_skip_needs_a_shared_home_class(cell_pass(flat[a].cell_id), ba, bb);
    lemma_shared_cell_pairs_are_candidates(flat, objs, a, b);
}

/// The cells of each object name that object and lie in distinct parity
/// classes.
pub open spec fn lists_are_objects(nested: Seq<Seq<CellId>>) -> bool {
    &&& forall|i: int, m: int|
        0 <= i < nested.len() && 0 <= m < nested[i].len() ==> (#[trigger] nested[i][m]).object_id
            == i
    &&& forall|i: int, m1: int, m2: int|
        #![trigger nested[i][m1], nested[i][m2]]
        0 <= i < nested.len() && 0 <= m1 < nested[i].len() && 0 <= m2 < nested[i].len() && m1
            != m2 ==> parity_index(nested[i][m1].cell_id) != parity_index(nested[i][m2].cell_id)
}

/// Flattening lists of cells, where list `i` holds the cells of object `i` in
/// distinct parity classes, keeps the cells of each object in distinct classes.
pub proof fn lemma_flat_objects_span_distinct_classes(nested: Seq<Seq<CellId>>)
    requires
        lists_are_objects(nested),
    ensures
        objects_span_distinct_classes(nested.flatten()),
        forall|a: int|
            0 <= a < nested.flatten().len() ==> (#[trigger] nested.flatten()[a]).object_id
                < nested.len(),
    decreases nested.len(),
{
    if nested.len() > 0 {
        let init = nested.drop_last();
        let last = nested.last();
        assert(lists_are_objects(init)) by {
            assert forall|i: int, m: int| 0 <= i < init.len() && 0 <= m < init[i].len() implies (
            #[trigger] init[i][m]).object_id == i by {
                assert(init[i][m] == nested[i][m]);
            }
            assert forall|i: int, m1: int, m2: int|
                #![trigger init[i][m1], init[i][m2]]
                0 <= i < init.len() && 0 <= m1 < init[i].len() && 0 <= m2 < init[i].len() && m1
                    != m2 implies parity_index(init[i][m1].cell_id) != parity_index(
                init[i][m2].cell_id,
            ) by {
                assert(init[i] == nested[i]);
                assert(init[i][m1] == nested[i][m1]);
                assert(init[i][m2] == nested[i][m2]);
            }
        }
        lemma_flat_objects_span_distinct_classes(init);
        assert(nested =~= init.push(last));
        init.lemma_flatten_push(last);
        let f = nested.flatten();
        let fi = init.flatten();
        let n = nested.len() - 1;
        assert(f =~= fi + last);
        assert forall|a: int| 0 <= a < f.len() implies (#[trigger] f[a]).object_id < nested.len() by {
            if a >= fi.len() {
                assert(f[a] == nested[n][a - fi.len()]);
                assert(nested[n][a - fi.len()] == nested[n][a - fi.len()]);
            } else {
                assert(f[a] == fi[a]);
            }
        }
        assert forall|a: int, b: int|
            0 <= a < f.len() && 0 <= b < f.len() && a != b && (#[trigger] f[a]).object_id == (
            #[trigger] f[b]).object_id implies parity_index(f[a].cell_id) != parity_index(
            f[b].cell_id,
        ) by {
            if a < fi.len() && b < fi.len() {
                assert(f[a] == fi[a]);
                assert(f[b] == fi[b]);
            } else if a >= fi.len() && b >= fi.len() {
                assert(f[a] == nested[n][a - fi.len()]);
                assert(f[b] == nested[n][b - fi.len()]);
            } else if a < fi.len() {
                assert(f[a] == fi[a]);
                assert(f[b] == nested[n][b - fi.len()]);
            } else {
                assert(f[b] == fi[b]);
                assert(f[a] == nested[n][a - fi.len()]);
            }
        }
    }
}

proof fn lemma_pass_indices_origin(v: Seq<CollisionCandidates>)
    ensures
        forall|a: int|
            0 <= a < pass_indices(v).len() ==> exists|k: int|
                0 <= k < v.len() && v[k].indices@.contains(#[trigger] pass_indices(v)[a]),
    decreases v.len(),
{
    if v.len() > 0 {
        let init = v.drop_last();
        lemma_pass_indices_origin(init);
        let f = |c: CollisionCandidates| c.indices@;
        assert(v =~= init.push(v.last()));
        assert(v.map_values(f) =~= init.map_values(f).push(v.last().indices@));
        init.map_values(f).lemma_flatten_push(v.last().indices@);
        let pi = pass_indices(init);
        let last = v.last().indices@;
        assert(pass_indices(v) =~= pi + last);
        assert forall|a: int| 0 <= a < pass_indices(v).len() implies exists|k: int|
            0 <= k < v.len() && v[k].indices@.contains(#[trigger] pass_indices(v)[a]) by {
            if a < pi.len() {
                assert(pass_indices(v)[a] == pi[a]);
                let k = choose|k: int| 0 <= k < init.len() && init[k].indices@.contains(#[trigger] pi[a]);
                assert(v[k] == init[k]);
            } else {
                assert(pass_indices(v)[a] == last[a - pi.len()]);
                assert(last.contains(last[a - pi.len()]));
                assert(v[v.len() - 1].indices@ == last);
            }
        }
    }
}

proof fn lemma_disjoint_lists_unique(v: Seq<CollisionCandidates>, sets: Seq<Set<usize>>)
    requires
        candidates_match(v, sets),
        forall|k1: int, k2: int, o: usize|
            0 <= k1 < sets.len() && 0 <= k2 < sets.len() && k1 != k2 ==> !(
            #[trigger] sets[k1].contains(o) && #[trigger] sets[k2].contains(o)),
    ensures
        pass_indices(v).no_duplicates(),
    decreases v.len(),
{
    if v.len() > 0 {
        let init = v.drop_last();
        let n = v.len() - 1;
        let sinit = sets.drop_last();
        assert(candidates_match(init, sinit)) by {
            assert forall|k: int| 0 <= k < init.len() implies {
                &&& (#[trigger] init[k]).indices@.no_duplicates()
                &&& init[k].indices@.to_set() == sinit[k]
            } by {
                assert(init[k] == v[k]);
            }
        }
        lemma_disjoint_lists_unique(init, sinit);
        lemma_pass_indices_origin(init);
        let f = |c: CollisionCandidates| c.indices@;
        assert(v =~= init.push(v.last()));
        assert(v.map_values(f) =~= init.map_values(f).push(v.last().indices@));
        init.map_values(f).lemma_flatten_push(v.last().indices@);
        let pi = pass_indices(init);
        let last = v.last().indices@;
        let all = pass_indices(v);
        assert(all =~= pi + last);
        assert(v[n] == v.last());
        assert forall|a: int, b: int| 0 <= a < all.len() && 0 <= b < all.len() && a != b implies all[a]
            != all[b] by {
            if a < pi.len() && b < pi.len() {
                assert(all[a] == pi[a] && all[b] == pi[b]);
            } else if a >= pi.len() && b >= pi.len() {
                assert(all[a] == last[a - pi.len()] && all[b] == last[b - pi.len()]);
            } else {
                let (x, y) = if a < pi.len() { (a, b) } else { (b, a) };
                assert(all[x] == pi[x]);
                assert(all[y] == last[y - pi.len()]);
                let k = choose|k: int| 0 <= k < init.len() && init[k].indices@.contains(#[trigger] pi[x]);
                assert(init[k] == v[k]);
                if pi[x] == last[y - pi.len()] {
                    assert(v[k].indices@.to_set().contains(pi[x]));
                    assert(sets[k].contains(pi[x]));
                    assert(last.contains(last[y - pi.len()]));
                    assert(v[n].indices@.to_set().contains(pi[x]));
                    assert(sets[n].contains(pi[x]));
                }
            }
        }
    }
}

/// The checks that the broad phase asserts of its output hold: in each pass
/// every candidate list holds at least two indices and no object index occurs
/// twice, for
/// cells on the keyed grid whose objects span distinct parity classes.
pub proof fn lemma_pass_candidates_are_unique(
    flat: Seq<CellId>,
    objs: Seq<ObjectId>,
    t: u8,
    v: Seq<CollisionCandidates>,
)
    requires
        cells_ready(flat, objs),
        keys_distinguish_cells(flat),
        objects_span_distinct_classes(flat),
        candidates_match(v, collision_passes(flat, objs, t)),
    ensures
        pass_indices(v).no_duplicates(),
        forall|k: int| 0 <= k < v.len() ==> (#[trigger] v[k]).indices@.len() >= 2,
{
    let sets = collision_passes(flat, objs, t);
    lemma_passes_nonempty_and_in_range(flat, objs, t);
    assert forall|k1: int, k2: int, o: usize|
        0 <= k1 < sets.len() && 0 <= k2 < sets.len() && k1 != k2 implies !(
        #[trigger] sets[k1].contains(o) && #[trigger] sets[k2].contains(o)) by {
        lemma_object_in_at_most_one_list_per_pass(flat, objs, t, k1, k2, o);
    }
    lemma_disjoint_lists_unique(v, sets);
    assert forall|k: int| 0 <= k < v.len() implies (#[trigger] v[k]).indices@.len() >= 2 by {
        lemma_pass_lists_hold_two_objects(flat, objs, t, k);
        let (o1, o2) = choose|o1: usize, o2: usize|
            o1 != o2 && sets[k].contains(o1) && sets[k].contains(o2);
        let ix = v[k].indices@;
        assert(ix.to_set().contains(o1) && ix.to_set().contains(o2));
        assert(ix.contains(o1) && ix.contains(o2));
        let a = ix.index_of(o1);
        let b = ix.index_of(o2);
        assert(a != b);
    }
}

} // verus!
