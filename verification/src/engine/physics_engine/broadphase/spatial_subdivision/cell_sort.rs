use vstd::prelude::*;
use vstd::relations::{sorted_by, total_ordering};
use vstd::seq_lib::lemma_sorted_unique;

use super::cell_id::CellId;
use super::spatial_subdivision::spec_hash;

verus! {

/// The key by which cells are sorted: by grid key, and within one grid cell
/// home cells before phantom cells.
pub open spec fn cell_sort_key(c: CellId) -> int {
    spec_hash(c.cell_id) * 2 + c.cell_object_type.rank()
}

/// Each cell paired with its position, keyed for sorting.
pub open spec fn keyed_cells(flat: Seq<CellId>) -> Seq<(u64, usize)> {
    Seq::new(flat.len(), |p: int| (cell_sort_key(flat[p]) as u64, p as usize))
}

/// Lexicographic order on (key, position) pairs, the order of std's tuples.
pub open spec fn pair_leq(a: (u64, usize), b: (u64, usize)) -> bool {
    a.0 < b.0 || (a.0 == b.0 && a.1 <= b.1)
}

pub open spec fn pair_order() -> spec_fn((u64, usize), (u64, usize)) -> bool {
    |a: (u64, usize), b: (u64, usize)| pair_leq(a, b)
}

/// The cells' (key, position) pairs in ascending order. Positions break ties,
/// so the order is unique: cells of equal key keep their input order.
pub open spec fn sorted_order(flat: Seq<CellId>) -> Seq<(u64, usize)> {
    keyed_cells(flat).sort_by(pair_order())
}

/// The cells in sorted order.
pub open spec fn sorted_cells(flat: Seq<CellId>) -> Seq<CellId> {
    sorted_order(flat).map_values(|kp: (u64, usize)| flat[kp.1 as int])
}

/// Sorts (key, position) pairs in ascending lexicographic order.
///
/// Calls std's `slice::sort`, which the std documentation describes as a
/// stable sort into ascending order; the contract states that the result is a
/// rearrangement of the input that is in ascending order.
#[verifier::external_body]
fn sort_pairs(v: &mut Vec<(u64, usize)>)
    ensures
        final(v)@.to_multiset() == old(v)@.to_multiset(),
        sorted_by(final(v)@, pair_order()),
{
    v.sort();
}

pub proof fn lemma_pair_order_total()
    ensures
        total_ordering(pair_order()),
{
}

/// Some pair of the order holds position `p`.
pub open spec fn lists_position(so: Seq<(u64, usize)>, p: int) -> bool {
    exists|k: int| 0 <= k < so.len() && (#[trigger] so[k]).1 == p
}

/// Sorting rearranges the cells: the sorted order lists each position once,
/// with its cell's key, in ascending order.
pub proof fn lemma_sorted_order(flat: Seq<CellId>)
    requires
        forall|k: int| 0 <= k < flat.len() ==> 0 <= #[trigger] cell_sort_key(flat[k]) <= u64::MAX,
        flat.len() <= usize::MAX,
    ensures
        sorted_order(flat).len() == flat.len(),
        sorted_by(sorted_order(flat), pair_order()),
        forall|k: int|
            0 <= k < flat.len() ==> {
                &&& (#[trigger] sorted_order(flat)[k]).1 < flat.len()
                &&& sorted_order(flat)[k].0 == cell_sort_key(flat[sorted_order(flat)[k].1 as int])
            },
        forall|k1: int, k2: int|
            0 <= k1 < flat.len() && 0 <= k2 < flat.len() && k1 != k2 ==> (#[trigger] sorted_order(
                flat,
            )[k1]).1 != (#[trigger] sorted_order(flat)[k2]).1,
        forall|p: int| 0 <= p < flat.len() ==> #[trigger] lists_position(sorted_order(flat), p),
{
    broadcast use vstd::seq_lib::group_to_multiset_ensures;

    let keyed = keyed_cells(flat);
    let so = sorted_order(flat);
    lemma_pair_order_total();
    keyed.lemma_sort_by_ensures(pair_order());
    assert(so.to_multiset() == keyed.to_multiset());
    assert(so.len() == keyed.len()) by {
        keyed.to_multiset_ensures();
        so.to_multiset_ensures();
    }
    assert(keyed.no_duplicates());
    keyed.lemma_multiset_has_no_duplicates();
    so.lemma_multiset_has_no_duplicates_conv();
    assert forall|k: int| 0 <= k < flat.len() implies {
        &&& (#[trigger] so[k]).1 < flat.len()
        &&& so[k].0 == cell_sort_key(flat[so[k].1 as int])
    } by {
        assert(so.contains(so[k]));
        assert(keyed.contains(so[k]));
    }
    assert forall|p: int| 0 <= p < flat.len() implies #[trigger] lists_position(so, p) by {
        assert(keyed.contains(keyed[p]));
        assert(keyed.to_multiset().count(keyed[p]) > 0);
        assert(so.to_multiset().count(keyed[p]) > 0);
        assert(so.contains(keyed[p]));
        let k = choose|k: int| 0 <= k < so.len() && so[k] == keyed[p];
        assert(so[k].1 == p);
    }
    assert forall|k1: int, k2: int|
        0 <= k1 < flat.len() && 0 <= k2 < flat.len() && k1 != k2 implies (#[trigger] so[k1]).1
        != (#[trigger] so[k2]).1 by {
        assert(so.contains(so[k1]));
        assert(so.contains(so[k2]));
        assert(keyed.contains(so[k1]));
        assert(keyed.contains(so[k2]));
    }
}

/// The sorted order of the cells: their (key, position) pairs in ascending
/// order.
pub fn sort_cell_order(flat: &Vec<CellId>) -> (r: Vec<(u64, usize)>)
    requires
        forall|k: int| 0 <= k < flat@.len() ==> spec_hash(#[trigger] flat@[k].cell_id) <= u32::MAX,
    ensures
        r@ == sorted_order(flat@),
{
    let n = flat.len();
    let mut keyed: Vec<(u64, usize)> = Vec::new();
    let mut p: usize = 0;
    while p < n
        invariant
            n == flat@.len(),
            p <= n,
            forall|k: int| 0 <= k < flat@.len() ==> spec_hash(#[trigger] flat@[k].cell_id) <= u32::MAX,
            keyed@ =~= keyed_cells(flat@).take(p as int),
        decreases n - p,
    {
        let c = &flat[p];
        let h = super::spatial_subdivision::SpatialSubdivision::hash(c.cell_id);
        let rank: u64 = match c.cell_object_type {
            super::cell_id::CellIdType::Home => 0,
            super::cell_id::CellIdType::Phantom => 1,
        };
        let key: u64 = (h as u64) * 2 + rank;
        keyed.push((key, p));
        p = p + 1;
    }
    assert(keyed@ =~= keyed_cells(flat@));
    let ghost orig = keyed@;
    sort_pairs(&mut keyed);
    proof {
        lemma_pair_order_total();
        orig.lemma_sort_by_ensures(pair_order());
        lemma_sorted_unique(keyed@, orig.sort_by(pair_order()), pair_order());
    }
    keyed
}

} // verus!
